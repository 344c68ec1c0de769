//! The evidence that a release rests on, and the report that sums it up.

use crate::config::{
    AppConfig, RepositoryDescriptor, RepositoryMode, ServiceManager, SupportedPlatform,
};
use crate::git::{debug_list, debug_list_text, render_status, status_text};
use crate::migration::{validated_nix_versions, validated_targeted_relock_nix_versions};
use crate::order::{self, lemma_text_le_antisym, lemma_text_le_total, lemma_text_le_trans, text_le};
use crate::path::{self, file_stem_of, joined_path};
use crate::sanitize::{path_component, sanitize_path_component};
use crate::text::{
    bool_text, chars_of, concat2, concat3, concat4, concat5, decimal, digit, is_blank, is_digit,
    join, joined, lemma_run_is, lemma_texts_push, list_holds, number_in_u64, parse_digits,
    render_bool, render_u128, render_u64, run, same, text_of, texts, trim, trimmed,
};
use crate::upstream::{
    id_taken, reason_if, target_id_taken, MatrixTargetClass, MatrixTargetEntry, MatrixTargetManifest,
    MatrixTargetTransport,
};
use vstd::prelude::*;

verus! {

#[derive(Debug, Clone, Copy, PartialEq, Eq, Structural)]
pub enum FloorStatus {
    Open,
    Closed,
}

#[derive(Debug, Clone, PartialEq, Eq)]
pub struct HostVersionEvidence {
    pub host_id: String,
    pub platform: SupportedPlatform,
    pub service_manager: ServiceManager,
    pub observed_git_version: String,
    pub observed_nix_version: String,
    pub recorded_at_ms: u128,
}

#[derive(Debug, Clone, PartialEq, Eq)]
pub struct RepoReleaseManifestSummary {
    pub repo_id: String,
    pub manifest_path: Option<String>,
    pub manifest_present: bool,
    pub all_entries_admitted: bool,
    pub admitted_entries: usize,
    pub total_entries: usize,
}

#[derive(Debug, Clone, PartialEq, Eq)]
pub struct ReleaseConformanceReport {
    pub generated_at_ms: u128,
    pub current_host: HostVersionEvidence,
    pub platform_evidence: Vec<HostVersionEvidence>,
    pub repo_manifests: Vec<RepoReleaseManifestSummary>,
    pub exact_git_floor: Option<String>,
    pub exact_git_floor_status: FloorStatus,
    pub exact_nix_floor: Option<String>,
    pub exact_nix_floor_status: FloorStatus,
    pub blocking_reasons: Vec<String>,
}

#[derive(Debug, Clone)]
pub enum ReleaseError {
    Read { path: String, error: String },
    CreateDir { path: String, error: String },
    Write { path: String, error: String },
    ParseJson { path: String, error: String },
    InvalidGitConformanceEvidence { path: String, detail: String },
    InvalidReleaseManifest { path: String, detail: String },
    SpawnCommand { program: String, args: Vec<String>, error: String },
    Command { program: String, args: Vec<String>, status: Option<i32>, detail: String },
}

impl ReleaseError {
    pub open spec fn message_text(self) -> Seq<char> {
        match self {
            ReleaseError::Read { path, error } => "failed to read "@ + path@ + ": "@ + error@,
            ReleaseError::CreateDir { path, error } => "failed to create directory "@ + path@ + ": "@ + error@,
            ReleaseError::Write { path, error } => "failed to write "@ + path@ + ": "@ + error@,
            ReleaseError::ParseJson { path, error } => "failed to parse JSON "@ + path@ + ": "@ + error@,
            ReleaseError::InvalidGitConformanceEvidence { path, detail } => "invalid git conformance evidence at "@ + path@ + ": "@ + detail@,
            ReleaseError::InvalidReleaseManifest { path, detail } => "invalid release manifest evidence at "@ + path@ + ": "@ + detail@,
            ReleaseError::SpawnCommand { program, args, error } => "failed to spawn "@ + program@ + " with args "@ + debug_list_text(texts(args@)) + ": "@ + error@,
            ReleaseError::Command { program, args, status, detail } => program@ + " failed for args "@ + debug_list_text(texts(args@)) + " with status "@ + status_text(status) + ": "@ + detail@,
        }
    }

    /// The error in words.
    pub fn message(&self) -> (r: String)
        ensures
            r@ == self.message_text(),
    {
        match self {
            ReleaseError::Read { path, error } => concat4("failed to read ", path, ": ", error),
            ReleaseError::CreateDir { path, error } => concat4("failed to create directory ", path, ": ", error),
            ReleaseError::Write { path, error } => concat4("failed to write ", path, ": ", error),
            ReleaseError::ParseJson { path, error } => concat4("failed to parse JSON ", path, ": ", error),
            ReleaseError::InvalidGitConformanceEvidence { path, detail } => concat4("invalid git conformance evidence at ", path, ": ", detail),
            ReleaseError::InvalidReleaseManifest { path, detail } => concat4("invalid release manifest evidence at ", path, ": ", detail),
            ReleaseError::SpawnCommand { program, args, error } => {
                let head = concat5("failed to spawn ", program, " with args ", &debug_list(args), ": ");
                concat2(&head, error)
            },
            ReleaseError::Command { program, args, status, detail } => {
                let head = concat5(program, " failed for args ", &debug_list(args), " with status ", &render_status(*status));
                concat3(&head, ": ", detail)
            },
        }
    }
}

#[derive(Debug, Clone)]
pub struct StoredReleaseManifest {
    pub generated_at_ms: u128,
    pub repo_id: String,
    pub repo_path: String,
    pub manifest_path: String,
    pub probe_run_id: String,
    pub probe_run_path: String,
    pub all_entries_admitted: bool,
    pub entries: Vec<StoredReleaseManifestEntry>,
}

#[derive(Debug, Clone)]
pub struct StoredReleaseManifestEntry {
    pub target_id: String,
    pub product: String,
    pub class: MatrixTargetClass,
    pub transport: MatrixTargetTransport,
    pub url: String,
    pub require_atomic: bool,
    pub same_repo_hidden_refs: bool,
    pub admitted: bool,
    pub evidence_path: String,
    pub admission_reasons: Vec<String>,
}

#[derive(Debug, Clone, Copy, PartialEq, Eq, Structural)]
pub enum StoredGitConformanceProfile {
    DeterministicCore,
    ProviderAdmission,
}

#[derive(Debug, Clone, Copy, PartialEq, Eq, Structural)]
pub enum StoredGitConformanceCaseStatus {
    Pass,
    Fail,
}

#[derive(Debug, Clone)]
pub struct StoredGitConformanceCase {
    pub case_id: String,
    pub status: StoredGitConformanceCaseStatus,
}

#[derive(Debug, Clone)]
pub struct StoredGitConformanceBinaryDigests {
    pub git_relay: String,
    pub git_relayd: String,
    pub git_relay_install_hooks: String,
    pub git_relay_ssh_force_command: String,
}

#[derive(Debug, Clone)]
pub struct StoredGitConformanceEvidence {
    pub schema_version: u64,
    pub profile: StoredGitConformanceProfile,
    pub git_version_key: String,
    pub platform: SupportedPlatform,
    pub nix_system: String,
    pub service_manager: ServiceManager,
    pub git_version: String,
    pub openssh_version: String,
    pub filesystem_profile: String,
    pub git_relay_commit: String,
    pub flake_lock_sha256: String,
    pub binary_digests: StoredGitConformanceBinaryDigests,
    pub cases: Vec<StoredGitConformanceCase>,
    pub all_mandatory_cases_passed: bool,
    pub normalized_summary_sha256: String,
    pub recorded_at_ms: u128,
}

// ---------------------------------------------------------------------------
// Names

pub open spec fn platform_text(platform: SupportedPlatform) -> Seq<char> {
    match platform {
        SupportedPlatform::Macos => "macos"@,
        SupportedPlatform::Linux => "linux"@,
    }
}

pub fn platform_label(platform: SupportedPlatform) -> (r: &'static str)
    ensures
        r@ == platform_text(platform),
{
    match platform {
        SupportedPlatform::Macos => "macos",
        SupportedPlatform::Linux => "linux",
    }
}

pub open spec fn manager_text(manager: ServiceManager) -> Seq<char> {
    match manager {
        ServiceManager::Launchd => "launchd"@,
        ServiceManager::Systemd => "systemd"@,
    }
}

pub fn service_manager_label(manager: ServiceManager) -> (r: &'static str)
    ensures
        r@ == manager_text(manager),
{
    match manager {
        ServiceManager::Launchd => "launchd",
        ServiceManager::Systemd => "systemd",
    }
}

/// The service manager that a platform is supported with.
pub open spec fn manager_for(platform: SupportedPlatform) -> ServiceManager {
    match platform {
        SupportedPlatform::Macos => ServiceManager::Launchd,
        SupportedPlatform::Linux => ServiceManager::Systemd,
    }
}

/// Where the evidence of a host is kept.
pub fn host_evidence_path(state_root: &str, platform: SupportedPlatform, host_id: &str) -> (r:
    String)
    ensures
        r@ == joined_path(
            joined_path(
                joined_path(joined_path(state_root@, "release"@), "hosts"@),
                platform_text(platform),
            ),
            path_component(host_id@) + ".json"@,
        ),
{
    let hosts = path::join(&path::join(state_root, "release"), "hosts");
    let name = concat2(&sanitize_path_component(host_id), ".json");
    path::join(&path::join(&hosts, platform_label(platform)), &name)
}

// ---------------------------------------------------------------------------
// Conformance evidence

/// The cases that evidence must hold.
pub open spec fn mandatory_cases() -> Seq<Seq<char>> {
    seq![
        "P01"@,
        "P02"@,
        "P03"@,
        "P04"@,
        "P05"@,
        "P06"@,
        "P07"@,
        "P08"@,
        "P09"@,
        "P10"@,
        "P11"@,
    ]
}

/// The cases that evidence must hold.
pub fn mandatory_case_ids() -> (r: Vec<String>)
    ensures
        texts(r@) == mandatory_cases(),
{
    vec![
        "P01".to_owned(),
        "P02".to_owned(),
        "P03".to_owned(),
        "P04".to_owned(),
        "P05".to_owned(),
        "P06".to_owned(),
        "P07".to_owned(),
        "P08".to_owned(),
        "P09".to_owned(),
        "P10".to_owned(),
        "P11".to_owned(),
    ]
}

/// Whether one of the first `n` cases has the given id.
pub open spec fn case_seen(cases: Seq<StoredGitConformanceCase>, id: Seq<char>, n: int) -> bool {
    exists|j: int| 0 <= j < n && (#[trigger] cases[j]).case_id@ == id
}

fn has_case(cases: &Vec<StoredGitConformanceCase>, id: &str, n: usize) -> (r: bool)
    requires
        n <= cases@.len(),
    ensures
        r == case_seen(cases@, id@, n as int),
{
    let mut j: usize = 0;
    while j < n
        invariant
            j <= n <= cases@.len(),
            forall|k: int| 0 <= k < j ==> (#[trigger] cases@[k]).case_id@ != id@,
        decreases n - j,
    {
        if same(&cases[j].case_id, id) {
            assert(cases@[j as int].case_id@ == id@);
            return true;
        }
        j += 1;
    }
    false
}

/// What is wrong with the ids of the cases from index `i` on, if anything.
pub open spec fn cases_flaw(cases: Seq<StoredGitConformanceCase>, i: int) -> Option<Seq<char>>
    decreases cases.len() - i,
{
    if i < 0 || i >= cases.len() {
        None
    } else if trimmed(cases[i].case_id@).len() == 0 {
        Some("cases[*].case_id must not be empty"@)
    } else if case_seen(cases, cases[i].case_id@, i) {
        Some("duplicate case_id "@ + cases[i].case_id@ + " in cases"@)
    } else {
        cases_flaw(cases, i + 1)
    }
}

fn cases_problem(cases: &Vec<StoredGitConformanceCase>) -> (r: Option<String>)
    ensures
        text_of(r) == cases_flaw(cases@, 0),
{
    let mut i: usize = 0;
    while i < cases.len()
        invariant
            i <= cases@.len(),
            cases_flaw(cases@, i as int) == cases_flaw(cases@, 0),
        decreases cases@.len() - i,
    {
        let id = &cases[i].case_id;
        if is_blank(id) {
            return Some("cases[*].case_id must not be empty".to_owned());
        }
        if has_case(cases, id, i) {
            return Some(concat3("duplicate case_id ", id, " in cases"));
        }
        i += 1;
    }
    None
}

/// The ids among `ids` that no case has, in the same order.
pub open spec fn missing_cases(cases: Seq<StoredGitConformanceCase>, ids: Seq<Seq<char>>) -> Seq<
    Seq<char>,
>
    decreases ids.len(),
{
    if ids.len() == 0 {
        Seq::empty()
    } else if case_seen(cases, ids.last(), cases.len() as int) {
        missing_cases(cases, ids.drop_last())
    } else {
        missing_cases(cases, ids.drop_last()).push(ids.last())
    }
}

fn find_missing_cases(cases: &Vec<StoredGitConformanceCase>) -> (r: Vec<String>)
    ensures
        texts(r@) == missing_cases(cases@, mandatory_cases()),
{
    let ids = mandatory_case_ids();
    let ghost all = mandatory_cases();
    let mut missing: Vec<String> = Vec::new();
    let mut i: usize = 0;
    assert(texts(missing@) =~= missing_cases(cases@, all.take(0)));
    while i < ids.len()
        invariant
            i <= ids@.len(),
            texts(ids@) == all,
            texts(missing@) == missing_cases(cases@, all.take(i as int)),
        decreases ids@.len() - i,
    {
        proof {
            assert(all[i as int] == ids@[i as int]@);
            assert(all.take(i + 1).drop_last() =~= all.take(i as int));
            lemma_texts_push(missing@, ids@[i as int]);
        }
        if !has_case(cases, &ids[i], cases.len()) {
            missing.push(ids[i].clone());
        }
        i += 1;
    }
    assert(all.take(i as int) =~= all);
    missing
}

/// Whether some case failed.
pub open spec fn some_failed(cases: Seq<StoredGitConformanceCase>) -> bool {
    exists|i: int|
        0 <= i < cases.len() && (#[trigger] cases[i]).status
            == StoredGitConformanceCaseStatus::Fail
}

fn any_failed(cases: &Vec<StoredGitConformanceCase>) -> (r: bool)
    ensures
        r == some_failed(cases@),
{
    let mut i: usize = 0;
    while i < cases.len()
        invariant
            i <= cases@.len(),
            forall|j: int|
                0 <= j < i ==> (#[trigger] cases@[j]).status
                    != StoredGitConformanceCaseStatus::Fail,
        decreases cases@.len() - i,
    {
        if cases[i].status == StoredGitConformanceCaseStatus::Fail {
            assert(cases@[i as int].status == StoredGitConformanceCaseStatus::Fail);
            return true;
        }
        i += 1;
    }
    false
}

/// What is wrong with the digests of the binaries, if anything.
pub open spec fn digests_flaw(d: StoredGitConformanceBinaryDigests) -> Option<Seq<char>> {
    if trimmed(d.git_relay@).len() == 0 {
        Some("binary_digests."@ + "git-relay"@ + " must not be empty"@)
    } else if trimmed(d.git_relayd@).len() == 0 {
        Some("binary_digests."@ + "git-relayd"@ + " must not be empty"@)
    } else if trimmed(d.git_relay_install_hooks@).len() == 0 {
        Some("binary_digests."@ + "git-relay-install-hooks"@ + " must not be empty"@)
    } else if trimmed(d.git_relay_ssh_force_command@).len() == 0 {
        Some("binary_digests."@ + "git-relay-ssh-force-command"@ + " must not be empty"@)
    } else {
        None
    }
}

fn digests_problem(d: &StoredGitConformanceBinaryDigests) -> (r: Option<String>)
    ensures
        text_of(r) == digests_flaw(*d),
{
    let blank = if is_blank(&d.git_relay) {
        "git-relay"
    } else if is_blank(&d.git_relayd) {
        "git-relayd"
    } else if is_blank(&d.git_relay_install_hooks) {
        "git-relay-install-hooks"
    } else if is_blank(&d.git_relay_ssh_force_command) {
        "git-relay-ssh-force-command"
    } else {
        return None;
    };
    Some(concat3("binary_digests.", blank, " must not be empty"))
}

/// The key of a file: its name without the extension.
pub open spec fn file_key(path: Seq<char>) -> Seq<char> {
    match file_stem_of(path) {
        Some(stem) => stem,
        None => Seq::empty(),
    }
}

/// What is wrong with conformance evidence that was read from `path` under the directory of a
/// platform, if anything; the first of these that holds.
pub open spec fn evidence_flaw(
    path: Seq<char>,
    platform_name: Seq<char>,
    e: StoredGitConformanceEvidence,
) -> Option<Seq<char>> {
    let missing = missing_cases(e.cases@, mandatory_cases());
    if platform_name != "macos"@ && platform_name != "linux"@ {
        Some("unsupported platform directory "@ + platform_name)
    } else if e.schema_version != 1 {
        Some("unsupported schema_version "@ + decimal(e.schema_version as nat))
    } else if platform_text(e.platform) != platform_name {
        Some(
            "payload platform "@ + platform_text(e.platform) + " did not match directory platform "@
                + platform_name,
        )
    } else if trimmed(e.git_version@).len() == 0 {
        Some("git_version must not be empty"@)
    } else if e.git_version_key@ != path_component(e.git_version@) {
        Some(
            "git_version_key "@ + e.git_version_key@ + " did not match sanitized git_version "@
                + path_component(e.git_version@),
        )
    } else if file_key(path) != e.git_version_key@ {
        Some(
            "file key "@ + file_key(path) + " did not match payload git_version_key "@
                + e.git_version_key@,
        )
    } else if trimmed(e.nix_system@).len() == 0 {
        Some("nix_system must not be empty"@)
    } else if e.service_manager != manager_for(e.platform) {
        Some(
            "service_manager "@ + manager_text(e.service_manager) + " did not match expected "@
                + manager_text(manager_for(e.platform)) + " for platform "@ + platform_text(
                e.platform,
            ),
        )
    } else if trimmed(e.openssh_version@).len() == 0 {
        Some("openssh_version must not be empty"@)
    } else if trimmed(e.filesystem_profile@).len() == 0 {
        Some("filesystem_profile must not be empty"@)
    } else if trimmed(e.git_relay_commit@).len() == 0 {
        Some("git_relay_commit must not be empty"@)
    } else if trimmed(e.flake_lock_sha256@).len() == 0 {
        Some("flake_lock_sha256 must not be empty"@)
    } else if digests_flaw(e.binary_digests) is Some {
        digests_flaw(e.binary_digests)
    } else if e.cases@.len() == 0 {
        Some("cases must contain at least one case result"@)
    } else if cases_flaw(e.cases@, 0) is Some {
        cases_flaw(e.cases@, 0)
    } else if missing.len() > 0 {
        Some("cases missing mandatory case ids "@ + joined(missing, ", "@))
    } else if e.all_mandatory_cases_passed && some_failed(e.cases@) {
        Some("all_mandatory_cases_passed=true conflicted with at least one failing case status"@)
    } else if trimmed(e.normalized_summary_sha256@).len() == 0 {
        Some("normalized_summary_sha256 must not be empty"@)
    } else if e.recorded_at_ms != 0 {
        Some(
            "recorded_at_ms must be deterministic zero for release-admitting evidence, found "@
                + decimal(e.recorded_at_ms as nat),
        )
    } else {
        None
    }
}

fn evidence_problem(path: &str, platform_name: &str, e: &StoredGitConformanceEvidence) -> (r:
    Option<String>)
    ensures
        text_of(r) == evidence_flaw(path@, platform_name@, *e),
{
    if !same(platform_name, "macos") && !same(platform_name, "linux") {
        return Some(concat2("unsupported platform directory ", platform_name));
    }
    if e.schema_version != 1 {
        return Some(concat2("unsupported schema_version ", &render_u64(e.schema_version)));
    }
    if !same(platform_label(e.platform), platform_name) {
        return Some(
            concat4(
                "payload platform ",
                platform_label(e.platform),
                " did not match directory platform ",
                platform_name,
            ),
        );
    }
    if is_blank(&e.git_version) {
        return Some("git_version must not be empty".to_owned());
    }
    let expected_key = sanitize_path_component(&e.git_version);
    if !same(&e.git_version_key, &expected_key) {
        return Some(
            concat4(
                "git_version_key ",
                &e.git_version_key,
                " did not match sanitized git_version ",
                &expected_key,
            ),
        );
    }
    let key = match path::file_stem(path) {
        Some(stem) => stem,
        None => String::new(),
    };
    assert(key@ == file_key(path@));
    if !same(&key, &e.git_version_key) {
        return Some(
            concat4(
                "file key ",
                &key,
                " did not match payload git_version_key ",
                &e.git_version_key,
            ),
        );
    }
    if is_blank(&e.nix_system) {
        return Some("nix_system must not be empty".to_owned());
    }
    let expected_manager = match e.platform {
        SupportedPlatform::Macos => ServiceManager::Launchd,
        SupportedPlatform::Linux => ServiceManager::Systemd,
    };
    if e.service_manager != expected_manager {
        let head = concat4(
            "service_manager ",
            service_manager_label(e.service_manager),
            " did not match expected ",
            service_manager_label(expected_manager),
        );
        return Some(concat3(&head, " for platform ", platform_label(e.platform)));
    }
    if is_blank(&e.openssh_version) {
        return Some("openssh_version must not be empty".to_owned());
    }
    if is_blank(&e.filesystem_profile) {
        return Some("filesystem_profile must not be empty".to_owned());
    }
    if is_blank(&e.git_relay_commit) {
        return Some("git_relay_commit must not be empty".to_owned());
    }
    if is_blank(&e.flake_lock_sha256) {
        return Some("flake_lock_sha256 must not be empty".to_owned());
    }
    match digests_problem(&e.binary_digests) {
        Some(detail) => {
            return Some(detail);
        },
        None => {},
    }
    if e.cases.len() == 0 {
        return Some("cases must contain at least one case result".to_owned());
    }
    match cases_problem(&e.cases) {
        Some(detail) => {
            return Some(detail);
        },
        None => {},
    }
    let missing = find_missing_cases(&e.cases);
    assert(texts(missing@).len() == missing@.len());
    if missing.len() > 0 {
        return Some(concat2("cases missing mandatory case ids ", &join(&missing, ", ")));
    }
    if e.all_mandatory_cases_passed && any_failed(&e.cases) {
        return Some(
            "all_mandatory_cases_passed=true conflicted with at least one failing case status".to_owned(),
        );
    }
    if is_blank(&e.normalized_summary_sha256) {
        return Some("normalized_summary_sha256 must not be empty".to_owned());
    }
    if e.recorded_at_ms != 0 {
        return Some(
            concat2(
                "recorded_at_ms must be deterministic zero for release-admitting evidence, found ",
                &render_u128(e.recorded_at_ms),
            ),
        );
    }
    None
}

/// Whether conformance evidence is valid where it was found; the error says what is wrong with
/// it.
pub fn validate_git_conformance_evidence(
    path: &str,
    platform_name: &str,
    evidence: &StoredGitConformanceEvidence,
) -> (r: Result<(), ReleaseError>)
    ensures
        match evidence_flaw(path@, platform_name@, *evidence) {
            None => r is Ok,
            Some(flaw) => r matches Err(
                ReleaseError::InvalidGitConformanceEvidence { path: p, detail },
            ) && p@ == path@ && detail@ == flaw,
        },
{
    match evidence_problem(path, platform_name, evidence) {
        None => Ok(()),
        Some(detail) => Err(
            ReleaseError::InvalidGitConformanceEvidence { path: path.to_owned(), detail },
        ),
    }
}

proof fn lemma_none_missing(cases: Seq<StoredGitConformanceCase>, ids: Seq<Seq<char>>)
    requires
        missing_cases(cases, ids).len() == 0,
    ensures
        forall|i: int|
            0 <= i < ids.len() ==> case_seen(cases, #[trigger] ids[i], cases.len() as int),
    decreases ids.len(),
{
    if ids.len() > 0 {
        lemma_none_missing(cases, ids.drop_last());
        assert forall|i: int| 0 <= i < ids.len() implies case_seen(
            cases,
            #[trigger] ids[i],
            cases.len() as int,
        ) by {
            if i < ids.len() - 1 {
                assert(ids.drop_last()[i] == ids[i]);
            }
        }
    }
}

/// Valid evidence holds every mandatory case, and where it claims that all of them passed, each
/// case that it holds passed.
pub proof fn law_valid_evidence_is_complete(
    path: Seq<char>,
    platform_name: Seq<char>,
    e: StoredGitConformanceEvidence,
)
    requires
        evidence_flaw(path, platform_name, e) is None,
    ensures
        forall|i: int|
            0 <= i < mandatory_cases().len() ==> case_seen(
                e.cases@,
                #[trigger] mandatory_cases()[i],
                e.cases@.len() as int,
            ),
        e.all_mandatory_cases_passed ==> forall|i: int|
            0 <= i < e.cases@.len() ==> (#[trigger] e.cases@[i]).status
                == StoredGitConformanceCaseStatus::Pass,
        platform_text(e.platform) == platform_name,
        e.service_manager == manager_for(e.platform),
{
    lemma_none_missing(e.cases@, mandatory_cases());
}

// ---------------------------------------------------------------------------
// The Git floor

/// The numbers in a version: each run of digits, one that does not fit in 64 bits as 0.
pub open spec fn version_numbers(s: Seq<char>) -> Seq<u64>
    decreases s.len(),
{
    let n = run(s, crate::config::digits()) as int;
    if s.len() == 0 {
        Seq::empty()
    } else if !is_digit(s[0]) {
        version_numbers(s.skip(1))
    } else if 0 < n < s.len() {
        seq![number_or_zero(s.take(n))] + version_numbers(s.skip(n))
    } else {
        seq![number_or_zero(s)]
    }
}

/// The number that digits say, or 0 where it does not fit in 64 bits.
pub open spec fn number_or_zero(s: Seq<char>) -> u64 {
    match number_in_u64(s) {
        Some(n) => n,
        None => 0,
    }
}

/// The numbers in a version.
pub fn parse_git_version_components(value: &str) -> (r: Vec<u64>)
    ensures
        r@ == version_numbers(value@),
{
    let chars = chars_of(value);
    let mut numbers: Vec<u64> = Vec::new();
    let mut start: usize = 0;
    assert(chars@.skip(0) =~= value@);
    assert(numbers@ + version_numbers(value@) =~= version_numbers(value@));
    while start < chars.len()
        invariant
            start <= chars@.len(),
            numbers@ + version_numbers(chars@.skip(start as int)) == version_numbers(value@),
        decreases chars@.len() - start,
    {
        let ghost tail = chars@.skip(start as int);
        assert(tail[0] == chars@[start as int]);
        if !digit(chars[start]) {
            assert(tail.skip(1) =~= chars@.skip(start + 1));
            start += 1;
        } else {
            let ghost p = crate::config::digits();
            let mut i: usize = start;
            while i < chars.len() && digit(chars[i])
                invariant
                    start <= i <= chars@.len(),
                    tail == chars@.skip(start as int),
                    p == crate::config::digits(),
                    forall|j: int| 0 <= j < i - start ==> p(#[trigger] tail[j]),
                decreases chars@.len() - i,
            {
                assert(tail[i - start] == chars@[i as int]);
                i += 1;
            }
            let ghost part = chars@.subrange(start as int, i as int);
            proof {
                if i < chars@.len() {
                    assert(tail[i - start] == chars@[i as int]);
                }
                lemma_run_is(tail, p, (i - start) as nat);
                if i == start {
                    assert(p(tail[0]));
                }
                assert(part =~= tail.take(i - start));
                assert forall|j: int| 0 <= j < part.len() implies is_digit(#[trigger] part[j]) by {
                    assert(p(tail[j]));
                }
            }
            let n: u64 = match parse_digits(&chars, start, i) {
                Some(n) => n,
                None => 0,
            };
            let ghost before_push = numbers@;
            numbers.push(n);
            proof {
                assert(n == number_or_zero(part));
                assert(chars@.skip(i as int) =~= tail.skip(i - start));
                if i < chars@.len() {
                    assert(before_push.push(n) + version_numbers(chars@.skip(i as int))
                        =~= before_push + (seq![n] + version_numbers(chars@.skip(i as int))));
                } else {
                    assert(part =~= tail);
                    assert(chars@.skip(i as int) =~= Seq::<char>::empty());
                    assert(before_push.push(n) + Seq::<u64>::empty() =~= before_push + seq![n]);
                }
            }
            start = i;
        }
    }
    assert(chars@.skip(start as int) =~= Seq::<char>::empty());
    assert(numbers@ + Seq::<u64>::empty() =~= numbers@);
    numbers
}

/// The lexicographic order of lists of numbers.
pub open spec fn numbers_le(a: Seq<u64>, b: Seq<u64>) -> bool
    decreases a.len(),
{
    if a.len() == 0 {
        true
    } else if b.len() == 0 {
        false
    } else if a[0] == b[0] {
        numbers_le(a.skip(1), b.skip(1))
    } else {
        a[0] < b[0]
    }
}

proof fn lemma_numbers_le_total(a: Seq<u64>, b: Seq<u64>)
    ensures
        numbers_le(a, b) || numbers_le(b, a),
    decreases a.len(),
{
    if a.len() > 0 && b.len() > 0 && a[0] == b[0] {
        lemma_numbers_le_total(a.skip(1), b.skip(1));
    }
}

proof fn lemma_numbers_le_trans(a: Seq<u64>, b: Seq<u64>, c: Seq<u64>)
    requires
        numbers_le(a, b),
        numbers_le(b, c),
    ensures
        numbers_le(a, c),
    decreases a.len(),
{
    if a.len() > 0 && b.len() > 0 && c.len() > 0 && a[0] == b[0] && b[0] == c[0] {
        lemma_numbers_le_trans(a.skip(1), b.skip(1), c.skip(1));
    }
}

proof fn lemma_numbers_le_antisym(a: Seq<u64>, b: Seq<u64>)
    requires
        numbers_le(a, b),
        numbers_le(b, a),
    ensures
        a == b,
    decreases a.len(),
{
    if a.len() > 0 {
        lemma_numbers_le_antisym(a.skip(1), b.skip(1));
        assert(a =~= seq![a[0]] + a.skip(1));
        assert(b =~= seq![b[0]] + b.skip(1));
    } else {
        assert(a =~= b);
    }
}

/// The order of Git versions: by their numbers, and those with equal numbers by their text.
pub open spec fn version_le(a: Seq<char>, b: Seq<char>) -> bool {
    if version_numbers(a) == version_numbers(b) {
        text_le(a, b)
    } else {
        numbers_le(version_numbers(a), version_numbers(b))
    }
}

/// The order of Git versions is total: of two versions one comes first, and two that each come
/// first are the same text.
pub proof fn law_version_order_is_total(a: Seq<char>, b: Seq<char>, c: Seq<char>)
    ensures
        version_le(a, b) || version_le(b, a),
        version_le(a, b) && version_le(b, a) ==> a == b,
        version_le(a, b) && version_le(b, c) ==> version_le(a, c),
{
    let (x, y, z) = (version_numbers(a), version_numbers(b), version_numbers(c));
    lemma_text_le_total(a, b);
    lemma_numbers_le_total(x, y);
    if version_le(a, b) && version_le(b, a) {
        if x == y {
            lemma_text_le_antisym(a, b);
        } else {
            lemma_numbers_le_antisym(x, y);
        }
    }
    if version_le(a, b) && version_le(b, c) {
        if x == y && y == z {
            lemma_text_le_trans(a, b, c);
        } else if x != y && y != z {
            lemma_numbers_le_trans(x, y, z);
            if x == z {
                lemma_numbers_le_antisym(x, y);
            }
        }
    }
}

/// Whether the version `a` comes no later than `b`.
pub fn git_version_not_after(a: &str, b: &str) -> (r: bool)
    ensures
        r == version_le(a@, b@),
{
    let left = parse_git_version_components(a);
    let right = parse_git_version_components(b);
    let mut i: usize = 0;
    assert(left@.skip(0) =~= left@);
    assert(right@.skip(0) =~= right@);
    while i < left.len() && i < right.len() && left[i] == right[i]
        invariant
            i <= left@.len(),
            i <= right@.len(),
            left@.take(i as int) == right@.take(i as int),
            numbers_le(left@, right@) == numbers_le(left@.skip(i as int), right@.skip(i as int)),
        decreases left@.len() - i,
    {
        assert(left@.skip(i as int).skip(1) =~= left@.skip(i + 1));
        assert(right@.skip(i as int).skip(1) =~= right@.skip(i + 1));
        assert(left@.take(i + 1) =~= left@.take(i as int).push(left@[i as int]));
        assert(right@.take(i + 1) =~= right@.take(i as int).push(right@[i as int]));
        i += 1;
    }
    if i == left.len() && i == right.len() {
        assert(left@.take(i as int) =~= left@);
        assert(right@.take(i as int) =~= right@);
        order::not_after(a, b)
    } else {
        proof {
            if left@ == right@ {
                assert(i < left@.len() && i < right@.len());
                assert(left@[i as int] != right@[i as int]);
            }
        }
        if i == left.len() {
            true
        } else if i == right.len() {
            false
        } else {
            left[i] < right[i]
        }
    }
}

/// Whether evidence admits its Git version on its platform: it is of the deterministic core, and
/// all its mandatory cases passed.
pub open spec fn admits(e: StoredGitConformanceEvidence) -> bool {
    e.profile == StoredGitConformanceProfile::DeterministicCore && e.all_mandatory_cases_passed
}

/// Whether a Git version is admitted on a platform by one of the records.
pub open spec fn admitted_on(
    records: Seq<StoredGitConformanceEvidence>,
    version: Seq<char>,
    platform: SupportedPlatform,
) -> bool {
    exists|i: int|
        {
            &&& 0 <= i < records.len()
            &&& admits(#[trigger] records[i])
            &&& records[i].git_version@ == version
            &&& records[i].platform == platform
        }
}

/// Whether a Git version is admitted on both supported platforms.
pub open spec fn admitted_everywhere(
    records: Seq<StoredGitConformanceEvidence>,
    version: Seq<char>,
) -> bool {
    admitted_on(records, version, SupportedPlatform::Macos) && admitted_on(
        records,
        version,
        SupportedPlatform::Linux,
    )
}

/// Whether `floor` is the earliest Git version that is admitted on both supported platforms.
pub open spec fn is_git_floor(
    records: Seq<StoredGitConformanceEvidence>,
    floor: Option<Seq<char>>,
) -> bool {
    match floor {
        Some(version) => admitted_everywhere(records, version) && forall|other: Seq<char>|
            #[trigger] admitted_everywhere(records, other) ==> version_le(version, other),
        None => forall|other: Seq<char>| !#[trigger] admitted_everywhere(records, other),
    }
}

fn is_admitted_on(
    records: &Vec<StoredGitConformanceEvidence>,
    version: &str,
    platform: SupportedPlatform,
) -> (r: bool)
    ensures
        r == admitted_on(records@, version@, platform),
{
    let mut i: usize = 0;
    while i < records.len()
        invariant
            i <= records@.len(),
            forall|j: int|
                0 <= j < i ==> !(admits(#[trigger] records@[j]) && records@[j].git_version@
                    == version@ && records@[j].platform == platform),
        decreases records@.len() - i,
    {
        let e = &records[i];
        if e.profile == StoredGitConformanceProfile::DeterministicCore
            && e.all_mandatory_cases_passed && same(&e.git_version, version) && e.platform
            == platform {
            assert(admits(records@[i as int]));
            return true;
        }
        i += 1;
    }
    false
}

/// The earliest Git version that is admitted on both supported platforms.
pub fn exact_git_floor_from_evidence(records: &Vec<StoredGitConformanceEvidence>) -> (r: Option<
    String,
>)
    ensures
        is_git_floor(records@, text_of(r)),
{
    let mut floor: Option<String> = None;
    let mut i: usize = 0;
    while i < records.len()
        invariant
            i <= records@.len(),
            floor is None ==> forall|j: int|
                0 <= j < i ==> !admitted_everywhere(
                    records@,
                    (#[trigger] records@[j]).git_version@,
                ),
            floor matches Some(v) ==> admitted_everywhere(records@, v@) && forall|j: int|
                0 <= j < i && admitted_everywhere(
                    records@,
                    (#[trigger] records@[j]).git_version@,
                ) ==> version_le(v@, records@[j].git_version@),
        decreases records@.len() - i,
    {
        let version = &records[i].git_version;
        if is_admitted_on(records, version, SupportedPlatform::Macos) && is_admitted_on(
            records,
            version,
            SupportedPlatform::Linux,
        ) {
            let better = match &floor {
                None => true,
                Some(best) => !git_version_not_after(best, version),
            };
            proof {
                assert(admitted_everywhere(records@, version@));
                law_version_order_is_total(version@, version@, version@);
                if floor is Some {
                    let best = floor->0;
                    law_version_order_is_total(best@, version@, version@);
                    assert forall|j: int|
                        0 <= j < i && admitted_everywhere(
                            records@,
                            (#[trigger] records@[j]).git_version@,
                        ) && better implies version_le(version@, records@[j].git_version@) by {
                        law_version_order_is_total(version@, best@, records@[j].git_version@);
                    }
                }
            }
            if better {
                floor = Some(version.clone());
            }
        }
        i += 1;
    }
    proof {
        assert forall|other: Seq<char>| #[trigger]
            admitted_everywhere(records@, other) implies floor is Some && version_le(
            floor->0@,
            other,
        ) by {
            assert(admitted_on(records@, other, SupportedPlatform::Macos));
            let j = choose|j: int|
                {
                    &&& 0 <= j < records@.len()
                    &&& admits(#[trigger] records@[j])
                    &&& records@[j].git_version@ == other
                    &&& records@[j].platform == SupportedPlatform::Macos
                };
            assert(records@[j].git_version@ == other);
        }
    }
    floor
}

// ---------------------------------------------------------------------------
// Stored release manifests

/// Whether every entry of a stored manifest is admitted.
pub open spec fn stored_all_admitted(entries: Seq<StoredReleaseManifestEntry>) -> bool {
    forall|i: int| 0 <= i < entries.len() ==> (#[trigger] entries[i]).admitted
}

fn check_all_admitted(entries: &Vec<StoredReleaseManifestEntry>) -> (r: bool)
    ensures
        r == stored_all_admitted(entries@),
{
    let mut i: usize = 0;
    while i < entries.len()
        invariant
            i <= entries@.len(),
            forall|j: int| 0 <= j < i ==> (#[trigger] entries@[j]).admitted,
        decreases entries@.len() - i,
    {
        if !entries[i].admitted {
            assert(!entries@[i as int].admitted);
            return false;
        }
        i += 1;
    }
    true
}

/// What is wrong with a stored manifest by itself, if anything: its origin, the files that it
/// names, and whether it says of its entries what they say.
pub open spec fn manifest_header_flaw(
    repo_id: Seq<char>,
    m: StoredReleaseManifest,
    targets_exist: bool,
    probe_run_exists: bool,
) -> Option<Seq<char>> {
    if m.repo_id@ != repo_id {
        Some(
            "payload repo_id "@ + m.repo_id@ + " did not match selected repo_id "@ + repo_id,
        )
    } else if m.generated_at_ms == 0 {
        Some("generated_at_ms must be non-zero"@)
    } else if m.repo_path@.len() == 0 || m.manifest_path@.len() == 0 || trimmed(
        m.probe_run_id@,
    ).len() == 0 || m.probe_run_path@.len() == 0 {
        Some("manifest provenance fields must not be empty"@)
    } else if !targets_exist {
        Some("declared target manifest "@ + m.manifest_path@ + " is missing"@)
    } else if !probe_run_exists {
        Some("probe run evidence "@ + m.probe_run_path@ + " is missing"@)
    } else if m.entries@.len() == 0 {
        Some("entries must not be empty"@)
    } else if m.all_entries_admitted != stored_all_admitted(m.entries@) {
        Some(
            "all_entries_admitted="@ + bool_text(m.all_entries_admitted)
                + " did not match entry admission state "@ + bool_text(
                stored_all_admitted(m.entries@),
            ),
        )
    } else {
        None
    }
}

fn invalid_release_manifest(path: &str, detail: String) -> (r: ReleaseError)
    ensures
        r matches ReleaseError::InvalidReleaseManifest { path: p, detail: d } && p@ == path@ && d
            == detail,
{
    ReleaseError::InvalidReleaseManifest { path: path.to_owned(), detail }
}

/// Whether a stored manifest is valid by itself; the error says what is wrong with it.
/// `targets_exist` and `probe_run_exists` say whether the files that it names exist.
pub fn validate_release_manifest_header(
    path: &str,
    repo_id: &str,
    manifest: &StoredReleaseManifest,
    targets_exist: bool,
    probe_run_exists: bool,
) -> (r: Result<(), ReleaseError>)
    ensures
        match manifest_header_flaw(repo_id@, *manifest, targets_exist, probe_run_exists) {
            None => r is Ok,
            Some(flaw) => r matches Err(ReleaseError::InvalidReleaseManifest { path: p, detail })
                && p@ == path@ && detail@ == flaw,
        },
{
    let m = manifest;
    if !same(&m.repo_id, repo_id) {
        return Err(
            invalid_release_manifest(
                path,
                concat4(
                    "payload repo_id ",
                    &m.repo_id,
                    " did not match selected repo_id ",
                    repo_id,
                ),
            ),
        );
    }
    if m.generated_at_ms == 0 {
        return Err(
            invalid_release_manifest(path, "generated_at_ms must be non-zero".to_owned()),
        );
    }
    if m.repo_path.as_str().is_empty() || m.manifest_path.as_str().is_empty() || is_blank(
        &m.probe_run_id,
    ) || m.probe_run_path.as_str().is_empty() {
        return Err(
            invalid_release_manifest(
                path,
                "manifest provenance fields must not be empty".to_owned(),
            ),
        );
    }
    if !targets_exist {
        return Err(
            invalid_release_manifest(
                path,
                concat3("declared target manifest ", &m.manifest_path, " is missing"),
            ),
        );
    }
    if !probe_run_exists {
        return Err(
            invalid_release_manifest(
                path,
                concat3("probe run evidence ", &m.probe_run_path, " is missing"),
            ),
        );
    }
    if m.entries.len() == 0 {
        return Err(invalid_release_manifest(path, "entries must not be empty".to_owned()));
    }
    let computed = check_all_admitted(&m.entries);
    if m.all_entries_admitted != computed {
        return Err(
            invalid_release_manifest(
                path,
                concat4(
                    "all_entries_admitted=",
                    render_bool(m.all_entries_admitted),
                    " did not match entry admission state ",
                    render_bool(computed),
                ),
            ),
        );
    }
    Ok(())
}

/// What is wrong with the ids of the declared targets from index `i` on, if anything.
pub open spec fn declared_flaw(targets: Seq<MatrixTargetEntry>, i: int) -> Option<Seq<char>>
    decreases targets.len() - i,
{
    if i < 0 || i >= targets.len() {
        None
    } else if trimmed(targets[i].target_id@).len() == 0 {
        Some("declared target_id must not be empty"@)
    } else if id_taken(targets, targets[i].target_id@, i) {
        Some("declared target manifest contains duplicate target_id"@)
    } else {
        declared_flaw(targets, i + 1)
    }
}

fn declared_problem(targets: &Vec<MatrixTargetEntry>) -> (r: Option<String>)
    ensures
        text_of(r) == declared_flaw(targets@, 0),
{
    let mut i: usize = 0;
    while i < targets.len()
        invariant
            i <= targets@.len(),
            declared_flaw(targets@, i as int) == declared_flaw(targets@, 0),
        decreases targets@.len() - i,
    {
        if is_blank(&targets[i].target_id) {
            return Some("declared target_id must not be empty".to_owned());
        }
        if target_id_taken(targets, &targets[i].target_id, i) {
            return Some("declared target manifest contains duplicate target_id".to_owned());
        }
        i += 1;
    }
    None
}

/// Whether one of the first `n` entries has the given target id.
pub open spec fn entry_seen(
    entries: Seq<StoredReleaseManifestEntry>,
    id: Seq<char>,
    n: int,
) -> bool {
    exists|j: int| 0 <= j < n && (#[trigger] entries[j]).target_id@ == id
}

fn has_entry(entries: &Vec<StoredReleaseManifestEntry>, id: &str, n: usize) -> (r: bool)
    requires
        n <= entries@.len(),
    ensures
        r == entry_seen(entries@, id@, n as int),
{
    let mut j: usize = 0;
    while j < n
        invariant
            j <= n <= entries@.len(),
            forall|k: int| 0 <= k < j ==> (#[trigger] entries@[k]).target_id@ != id@,
        decreases n - j,
    {
        if same(&entries[j].target_id, id) {
            assert(entries@[j as int].target_id@ == id@);
            return true;
        }
        j += 1;
    }
    false
}

/// Whether some declared target is the one that an entry describes.
pub open spec fn describes(entry: StoredReleaseManifestEntry, target: MatrixTargetEntry) -> bool {
    &&& entry.product@ == target.product@
    &&& entry.class == target.class
    &&& entry.transport == target.transport
    &&& entry.url@ == target.url@
    &&& entry.require_atomic == target.require_atomic
    &&& entry.same_repo_hidden_refs == target.same_repo_hidden_refs
}

/// The index of the declared target with the given id at or after index `i`, or the length where
/// there is none.
pub open spec fn declared_index(targets: Seq<MatrixTargetEntry>, id: Seq<char>, i: int) -> int
    decreases targets.len() - i,
{
    if i < 0 || i >= targets.len() || targets[i].target_id@ == id {
        i
    } else {
        declared_index(targets, id, i + 1)
    }
}

/// Whether some admission reason is blank.
pub open spec fn some_blank(reasons: Seq<String>) -> bool {
    exists|i: int| 0 <= i < reasons.len() && trimmed(#[trigger] reasons[i]@).len() == 0
}

fn any_blank(reasons: &Vec<String>) -> (r: bool)
    ensures
        r == some_blank(reasons@),
{
    let mut i: usize = 0;
    while i < reasons.len()
        invariant
            i <= reasons@.len(),
            forall|j: int| 0 <= j < i ==> trimmed(#[trigger] reasons@[j]@).len() > 0,
        decreases reasons@.len() - i,
    {
        if is_blank(&reasons[i]) {
            return true;
        }
        i += 1;
    }
    false
}

/// What is wrong with the entry at index `i`, if anything; the first of these that holds.
/// `found` says of each entry whether its evidence exists.
pub open spec fn entry_flaw(
    entries: Seq<StoredReleaseManifestEntry>,
    found: Seq<bool>,
    targets: Seq<MatrixTargetEntry>,
    i: int,
) -> Option<Seq<char>> {
    let e = entries[i];
    let at = declared_index(targets, e.target_id@, 0);
    if trimmed(e.target_id@).len() == 0 || trimmed(e.product@).len() == 0 || trimmed(e.url@).len()
        == 0 || e.evidence_path@.len() == 0 {
        Some("entry target identity and evidence_path fields must not be empty"@)
    } else if !found[i] {
        Some("entry evidence_path "@ + e.evidence_path@ + " is missing"@)
    } else if some_blank(e.admission_reasons@) {
        Some("entry target_id "@ + e.target_id@ + " contains an empty admission reason"@)
    } else if entry_seen(entries, e.target_id@, i) {
        Some("duplicate entry target_id "@ + e.target_id@)
    } else if at >= targets.len() {
        Some(
            "entry target_id "@ + e.target_id@ + " is not present in declared target manifest"@,
        )
    } else if !describes(e, targets[at]) {
        Some(
            "entry target_id "@ + e.target_id@
                + " identity no longer matches declared target manifest"@,
        )
    } else {
        None
    }
}

/// What is wrong with the first flawed entry at or after index `i`.
pub open spec fn entries_flaw(
    entries: Seq<StoredReleaseManifestEntry>,
    found: Seq<bool>,
    targets: Seq<MatrixTargetEntry>,
    i: int,
) -> Option<Seq<char>>
    decreases entries.len() - i,
{
    if i < 0 || i >= entries.len() {
        None
    } else if entry_flaw(entries, found, targets, i) is Some {
        entry_flaw(entries, found, targets, i)
    } else {
        entries_flaw(entries, found, targets, i + 1)
    }
}

fn entry_problem(
    entries: &Vec<StoredReleaseManifestEntry>,
    found: &Vec<bool>,
    targets: &Vec<MatrixTargetEntry>,
    i: usize,
) -> (r: Option<String>)
    requires
        i < entries@.len(),
        found@.len() == entries@.len(),
    ensures
        text_of(r) == entry_flaw(entries@, found@, targets@, i as int),
{
    let e = &entries[i];
    if is_blank(&e.target_id) || is_blank(&e.product) || is_blank(&e.url)
        || e.evidence_path.as_str().is_empty() {
        return Some("entry target identity and evidence_path fields must not be empty".to_owned());
    }
    if !found[i] {
        return Some(concat3("entry evidence_path ", &e.evidence_path, " is missing"));
    }
    if any_blank(&e.admission_reasons) {
        return Some(
            concat3("entry target_id ", &e.target_id, " contains an empty admission reason"),
        );
    }
    if has_entry(entries, &e.target_id, i) {
        return Some(concat2("duplicate entry target_id ", &e.target_id));
    }
    let mut at: usize = 0;
    while at < targets.len() && !same(&targets[at].target_id, &e.target_id)
        invariant
            at <= targets@.len(),
            declared_index(targets@, e.target_id@, at as int) == declared_index(
                targets@,
                e.target_id@,
                0,
            ),
        decreases targets@.len() - at,
    {
        at += 1;
    }
    if at == targets.len() {
        return Some(
            concat3(
                "entry target_id ",
                &e.target_id,
                " is not present in declared target manifest",
            ),
        );
    }
    let t = &targets[at];
    if !same(&e.product, &t.product) || e.class != t.class || e.transport != t.transport || !same(
        &e.url,
        &t.url,
    ) || e.require_atomic != t.require_atomic || e.same_repo_hidden_refs
        != t.same_repo_hidden_refs {
        return Some(
            concat3(
                "entry target_id ",
                &e.target_id,
                " identity no longer matches declared target manifest",
            ),
        );
    }
    None
}

/// Whether every declared target has an entry.
pub open spec fn all_covered(
    entries: Seq<StoredReleaseManifestEntry>,
    targets: Seq<MatrixTargetEntry>,
) -> bool {
    forall|i: int|
        0 <= i < targets.len() ==> entry_seen(
            entries,
            (#[trigger] targets[i]).target_id@,
            entries.len() as int,
        )
}

fn check_covered(
    entries: &Vec<StoredReleaseManifestEntry>,
    targets: &Vec<MatrixTargetEntry>,
) -> (r: bool)
    ensures
        r == all_covered(entries@, targets@),
{
    let mut i: usize = 0;
    while i < targets.len()
        invariant
            i <= targets@.len(),
            forall|j: int|
                0 <= j < i ==> entry_seen(
                    entries@,
                    (#[trigger] targets@[j]).target_id@,
                    entries@.len() as int,
                ),
        decreases targets@.len() - i,
    {
        if !has_entry(entries, &targets[i].target_id, entries.len()) {
            assert(!entry_seen(
                entries@,
                targets@[i as int].target_id@,
                entries@.len() as int,
            ));
            return false;
        }
        i += 1;
    }
    true
}

/// What is wrong with a stored manifest against the targets that were declared, if anything; the
/// first of these that holds. `found` says of each entry whether its evidence exists.
pub open spec fn manifest_targets_flaw(
    m: StoredReleaseManifest,
    declared: MatrixTargetManifest,
    found: Seq<bool>,
) -> Option<Seq<char>> {
    if declared.schema_version != 1 {
        Some(
            "declared target manifest schema_version "@ + decimal(declared.schema_version as nat)
                + " is unsupported"@,
        )
    } else if declared.targets@.len() == 0 {
        Some("declared target manifest must contain at least one target"@)
    } else if declared_flaw(declared.targets@, 0) is Some {
        declared_flaw(declared.targets@, 0)
    } else if entries_flaw(m.entries@, found, declared.targets@, 0) is Some {
        entries_flaw(m.entries@, found, declared.targets@, 0)
    } else if !all_covered(m.entries@, declared.targets@) {
        Some("release manifest entry coverage does not match declared targets"@)
    } else {
        None
    }
}

fn manifest_targets_problem(
    manifest: &StoredReleaseManifest,
    declared: &MatrixTargetManifest,
    found: &Vec<bool>,
) -> (r: Option<String>)
    requires
        found@.len() == manifest.entries@.len(),
    ensures
        text_of(r) == manifest_targets_flaw(*manifest, *declared, found@),
{
    if declared.schema_version != 1 {
        return Some(
            concat3(
                "declared target manifest schema_version ",
                &render_u64(declared.schema_version as u64),
                " is unsupported",
            ),
        );
    }
    if declared.targets.len() == 0 {
        return Some("declared target manifest must contain at least one target".to_owned());
    }
    match declared_problem(&declared.targets) {
        Some(detail) => {
            return Some(detail);
        },
        None => {},
    }
    let entries = &manifest.entries;
    let targets = &declared.targets;
    let mut i: usize = 0;
    while i < entries.len()
        invariant
            i <= entries@.len(),
            found@.len() == entries@.len(),
            *entries == manifest.entries,
            *targets == declared.targets,
            declared.schema_version == 1,
            targets@.len() > 0,
            declared_flaw(targets@, 0) is None,
            entries_flaw(entries@, found@, targets@, i as int) == entries_flaw(
                entries@,
                found@,
                targets@,
                0,
            ),
        decreases entries@.len() - i,
    {
        match entry_problem(entries, found, targets, i) {
            Some(detail) => {
                return Some(detail);
            },
            None => {},
        }
        i += 1;
    }
    if !check_covered(entries, targets) {
        return Some("release manifest entry coverage does not match declared targets".to_owned());
    }
    None
}

/// Whether a stored manifest agrees with the targets that were declared; the error says where it
/// does not. `evidence_found` says of each entry whether its evidence exists.
pub fn validate_stored_release_manifest(
    path: &str,
    manifest: &StoredReleaseManifest,
    declared: &MatrixTargetManifest,
    evidence_found: &Vec<bool>,
) -> (r: Result<(), ReleaseError>)
    requires
        evidence_found@.len() == manifest.entries@.len(),
    ensures
        match manifest_targets_flaw(*manifest, *declared, evidence_found@) {
            None => r is Ok,
            Some(flaw) => r matches Err(ReleaseError::InvalidReleaseManifest { path: p, detail })
                && p@ == path@ && detail@ == flaw,
        },
{
    match manifest_targets_problem(manifest, declared, evidence_found) {
        None => Ok(()),
        Some(detail) => Err(invalid_release_manifest(path, detail)),
    }
}

proof fn lemma_entries_clean(
    entries: Seq<StoredReleaseManifestEntry>,
    found: Seq<bool>,
    targets: Seq<MatrixTargetEntry>,
    i: int,
)
    requires
        0 <= i <= entries.len(),
        entries_flaw(entries, found, targets, i) is None,
    ensures
        forall|k: int|
            i <= k < entries.len() ==> #[trigger] entry_flaw(entries, found, targets, k) is None,
    decreases entries.len() - i,
{
    if i < entries.len() {
        lemma_entries_clean(entries, found, targets, i + 1);
    }
}

proof fn lemma_declared_index(targets: Seq<MatrixTargetEntry>, id: Seq<char>, i: int)
    requires
        0 <= i <= targets.len(),
    ensures
        i <= declared_index(targets, id, i) <= targets.len(),
        declared_index(targets, id, i) < targets.len() ==> targets[declared_index(
            targets,
            id,
            i,
        )].target_id@ == id,
    decreases targets.len() - i,
{
    if i < targets.len() && targets[i].target_id@ != id {
        lemma_declared_index(targets, id, i + 1);
    }
}

/// A valid stored manifest has exactly one entry for each declared target, and each entry
/// describes the target that was declared under its id.
pub proof fn law_valid_manifest_covers_targets(
    m: StoredReleaseManifest,
    declared: MatrixTargetManifest,
    found: Seq<bool>,
)
    requires
        manifest_targets_flaw(m, declared, found) is None,
    ensures
        all_covered(m.entries@, declared.targets@),
        forall|i: int, j: int|
            0 <= i < j < m.entries@.len() ==> (#[trigger] m.entries@[i]).target_id@ != (
            #[trigger] m.entries@[j]).target_id@,
        forall|i: int|
            0 <= i < m.entries@.len() ==> exists|k: int|
                0 <= k < declared.targets@.len() && (#[trigger] declared.targets@[k]).target_id@
                    == (#[trigger] m.entries@[i]).target_id@ && describes(
                    m.entries@[i],
                    declared.targets@[k],
                ),
{
    let (entries, targets) = (m.entries@, declared.targets@);
    lemma_entries_clean(entries, found, targets, 0);
    assert forall|i: int, j: int| 0 <= i < j < entries.len() implies (
    #[trigger] entries[i]).target_id@ != (#[trigger] entries[j]).target_id@ by {
        assert(entry_flaw(entries, found, targets, j) is None);
        assert(!entry_seen(entries, entries[j].target_id@, j));
    }
    assert forall|i: int| 0 <= i < entries.len() implies exists|k: int|
        0 <= k < targets.len() && (#[trigger] targets[k]).target_id@ == (
        #[trigger] entries[i]).target_id@ && describes(entries[i], targets[k]) by {
        let at = declared_index(targets, entries[i].target_id@, 0);
        lemma_declared_index(targets, entries[i].target_id@, 0);
        assert(entry_flaw(entries, found, targets, i) is None);
        assert(targets[at].target_id@ == entries[i].target_id@);
    }
}

/// How many of the first `n` entries are admitted.
pub open spec fn admitted_count(entries: Seq<StoredReleaseManifestEntry>, n: int) -> nat
    decreases n,
{
    if n <= 0 {
        0
    } else {
        admitted_count(entries, n - 1) + (if entries[n - 1].admitted {
            1nat
        } else {
            0nat
        })
    }
}

/// What a report says of a repository's latest release manifest, which was found valid at
/// `manifest_path`; `None` where the repository has none.
pub fn load_repo_manifest_summary(
    repo_id: &str,
    manifest_path: &str,
    manifest: Option<&StoredReleaseManifest>,
) -> (r: RepoReleaseManifestSummary)
    ensures
        r.repo_id@ == repo_id@,
        r.manifest_present == manifest is Some,
        match manifest {
            Some(m) => {
                &&& text_of(r.manifest_path) == Some(manifest_path@)
                &&& r.all_entries_admitted == m.all_entries_admitted
                &&& r.total_entries == m.entries@.len()
                &&& r.admitted_entries == admitted_count(m.entries@, m.entries@.len() as int)
            },
            None => {
                &&& r.manifest_path is None
                &&& !r.all_entries_admitted
                &&& r.total_entries == 0
                &&& r.admitted_entries == 0
            },
        },
{
    match manifest {
        None => RepoReleaseManifestSummary {
            repo_id: repo_id.to_owned(),
            manifest_path: None,
            manifest_present: false,
            all_entries_admitted: false,
            admitted_entries: 0,
            total_entries: 0,
        },
        Some(m) => {
            let mut admitted_entries: usize = 0;
            let mut i: usize = 0;
            while i < m.entries.len()
                invariant
                    i <= m.entries@.len(),
                    admitted_entries <= i,
                    admitted_entries == admitted_count(m.entries@, i as int),
                decreases m.entries@.len() - i,
            {
                if m.entries[i].admitted {
                    admitted_entries += 1;
                }
                i += 1;
            }
            RepoReleaseManifestSummary {
                repo_id: repo_id.to_owned(),
                manifest_path: Some(manifest_path.to_owned()),
                manifest_present: true,
                all_entries_admitted: m.all_entries_admitted,
                admitted_entries,
                total_entries: m.entries.len(),
            }
        },
    }
}

// ---------------------------------------------------------------------------
// The report

/// The ids of the authoritative repositories among the first `n`: all of them, or the one that is
/// asked for.
pub open spec fn selected_ids(
    descriptors: Seq<RepositoryDescriptor>,
    target: Option<Seq<char>>,
    n: int,
) -> Seq<Seq<char>>
    decreases n,
{
    if n <= 0 {
        Seq::empty()
    } else {
        let d = descriptors[n - 1];
        let so_far = selected_ids(descriptors, target, n - 1);
        if d.mode == RepositoryMode::Authoritative && (target is None || target == Some(
            d.repo_id@,
        )) {
            so_far.push(d.repo_id@)
        } else {
            so_far
        }
    }
}

/// The ids of the repositories that a release report covers.
pub fn select_release_repositories(
    descriptors: &Vec<RepositoryDescriptor>,
    target_repo: &Option<String>,
) -> (r: Vec<String>)
    ensures
        texts(r@) == selected_ids(
            descriptors@,
            text_of(*target_repo),
            descriptors@.len() as int,
        ),
{
    let mut ids: Vec<String> = Vec::new();
    let mut i: usize = 0;
    assert(texts(ids@) =~= selected_ids(descriptors@, text_of(*target_repo), 0));
    while i < descriptors.len()
        invariant
            i <= descriptors@.len(),
            texts(ids@) == selected_ids(descriptors@, text_of(*target_repo), i as int),
        decreases descriptors@.len() - i,
    {
        let d = &descriptors[i];
        let wanted = match target_repo {
            None => true,
            Some(repo_id) => same(&d.repo_id, repo_id),
        };
        proof {
            lemma_texts_push(ids@, d.repo_id);
        }
        if d.mode == RepositoryMode::Authoritative && wanted {
            ids.push(d.repo_id.clone());
        }
        i += 1;
    }
    ids
}

/// The evidence of the host that a report is made on.
pub fn current_host_evidence(
    config: &AppConfig,
    host_id: &str,
    git_version_output: &str,
    nix_version_output: &str,
    recorded_at_ms: u128,
) -> (r: HostVersionEvidence)
    ensures
        r.host_id@ == host_id@,
        r.platform == config.deployment.platform,
        r.service_manager == config.deployment.service_manager,
        r.observed_git_version@ == trimmed(git_version_output@),
        r.observed_nix_version@ == trimmed(nix_version_output@),
        r.recorded_at_ms == recorded_at_ms,
{
    HostVersionEvidence {
        host_id: host_id.to_owned(),
        platform: config.deployment.platform,
        service_manager: config.deployment.service_manager,
        observed_git_version: trim(git_version_output),
        observed_nix_version: trim(nix_version_output),
        recorded_at_ms,
    }
}

/// The id of a host: what is configured, or else its name, or else `unknown-host`.
pub fn detect_host_id(configured: &Option<String>, hostname: &Option<String>) -> (r: String)
    ensures
        r@ == (match (configured, hostname) {
            (Some(c), _) if trimmed(c@).len() > 0 => trimmed(c@),
            (_, Some(h)) if trimmed(h@).len() > 0 => trimmed(h@),
            _ => "unknown-host"@,
        }),
{
    match configured {
        Some(value) => {
            let id = trim(value);
            if !id.as_str().is_empty() {
                return id;
            }
        },
        None => {},
    }
    match hostname {
        Some(value) => {
            let id = trim(value);
            if !id.as_str().is_empty() {
                return id;
            }
        },
        None => {},
    }
    "unknown-host".to_owned()
}

impl order::Ordered for HostVersionEvidence {
    /// By platform, and on one platform by host.
    open spec fn le(&self, other: &Self) -> bool {
        let (a, b) = (platform_text(self.platform), platform_text(other.platform));
        if a == b {
            text_le(self.host_id@, other.host_id@)
        } else {
            text_le(a, b)
        }
    }

    proof fn total(a: &Self, b: &Self) {
        lemma_text_le_total(platform_text(a.platform), platform_text(b.platform));
        lemma_text_le_total(a.host_id@, b.host_id@);
    }

    proof fn transitive(a: &Self, b: &Self, c: &Self) {
        let (x, y, z) = (
            platform_text(a.platform),
            platform_text(b.platform),
            platform_text(c.platform),
        );
        if x == y && y == z {
            lemma_text_le_trans(a.host_id@, b.host_id@, c.host_id@);
        } else if x != y && y != z {
            lemma_text_le_trans(x, y, z);
            if x == z {
                lemma_text_le_antisym(x, y);
            }
        }
    }

    fn not_after(&self, other: &Self) -> (r: bool) {
        let a = platform_label(self.platform);
        let b = platform_label(other.platform);
        if same(a, b) {
            order::not_after(&self.host_id, &other.host_id)
        } else {
            order::not_after(a, b)
        }
    }
}

/// Whether every repository of a report has a fully admitted manifest, and there is one.
pub open spec fn manifests_admitted(manifests: Seq<RepoReleaseManifestSummary>) -> bool {
    &&& manifests.len() > 0
    &&& forall|i: int|
        0 <= i < manifests.len() ==> (#[trigger] manifests[i]).manifest_present
            && manifests[i].all_entries_admitted
}

fn check_manifests(manifests: &Vec<RepoReleaseManifestSummary>) -> (r: bool)
    ensures
        r == manifests_admitted(manifests@),
{
    let mut i: usize = 0;
    while i < manifests.len()
        invariant
            i <= manifests@.len(),
            forall|j: int|
                0 <= j < i ==> (#[trigger] manifests@[j]).manifest_present
                    && manifests@[j].all_entries_admitted,
        decreases manifests@.len() - i,
    {
        if !(manifests[i].manifest_present && manifests[i].all_entries_admitted) {
            assert(!(manifests@[i as int].manifest_present
                && manifests@[i as int].all_entries_admitted));
            return false;
        }
        i += 1;
    }
    manifests.len() > 0
}

/// Whether some host of a platform left evidence.
pub open spec fn platform_seen(
    hosts: Seq<HostVersionEvidence>,
    platform: SupportedPlatform,
) -> bool {
    exists|i: int| 0 <= i < hosts.len() && (#[trigger] hosts[i]).platform == platform
}

fn check_platform(hosts: &Vec<HostVersionEvidence>, platform: SupportedPlatform) -> (r: bool)
    ensures
        r == platform_seen(hosts@, platform),
{
    let mut i: usize = 0;
    while i < hosts.len()
        invariant
            i <= hosts@.len(),
            forall|j: int| 0 <= j < i ==> (#[trigger] hosts@[j]).platform != platform,
        decreases hosts@.len() - i,
    {
        if hosts[i].platform == platform {
            assert(hosts@[i as int].platform == platform);
            return true;
        }
        i += 1;
    }
    false
}

/// Whether every host ran a Nix version that targeted relocking was validated with.
pub open spec fn nix_validated(hosts: Seq<HostVersionEvidence>) -> bool {
    forall|i: int|
        0 <= i < hosts.len() ==> validated_nix_versions().contains(
            (#[trigger] hosts[i]).observed_nix_version@,
        )
}

fn check_nix(hosts: &Vec<HostVersionEvidence>) -> (r: bool)
    ensures
        r == nix_validated(hosts@),
{
    let versions = validated_targeted_relock_nix_versions();
    let mut i: usize = 0;
    while i < hosts.len()
        invariant
            i <= hosts@.len(),
            texts(versions@) == validated_nix_versions(),
            forall|j: int|
                0 <= j < i ==> validated_nix_versions().contains(
                    (#[trigger] hosts@[j]).observed_nix_version@,
                ),
        decreases hosts@.len() - i,
    {
        if !list_holds(&versions, &hosts[i].observed_nix_version) {
            assert(!validated_nix_versions().contains(hosts@[i as int].observed_nix_version@));
            return false;
        }
        i += 1;
    }
    true
}

/// What keeps a release from being closed, in the order in which it is reported.
pub open spec fn release_obstacles(
    manifests: Seq<RepoReleaseManifestSummary>,
    platforms_complete: bool,
    nix_ok: bool,
    git_floor_known: bool,
) -> Seq<Seq<char>> {
    reason_if(
        manifests.len() == 0,
        "no release manifest evidence is recorded for the selected repositories"@,
    ) + reason_if(
        manifests.len() > 0 && !manifests_admitted(manifests),
        "at least one repository release manifest is missing or not fully admitted"@,
    ) + reason_if(
        !platforms_complete,
        "release host evidence does not yet cover both supported platforms (macOS and Linux)"@,
    ) + reason_if(
        !nix_ok,
        "recorded host Nix versions are outside the validated targeted relock matrix"@,
    ) + reason_if(
        !git_floor_known,
        "exact Git floor evidence remains open until admitted deterministic-core git-conformance records exist for both supported platforms at the same Git version"@,
    )
}

fn block(reasons: &mut Vec<String>, found: bool, reason: &str)
    ensures
        texts(final(reasons)@) == texts(old(reasons)@) + reason_if(found, reason@),
{
    if found {
        reasons.push(reason.to_owned());
    }
    assert(texts(reasons@) =~= texts(old(reasons)@) + reason_if(found, reason@));
}

/// The report on the evidence that a release rests on: of the hosts, of the repositories'
/// manifests, and of Git's conformance, each already found valid.
pub fn build_release_conformance_report(
    current_host: HostVersionEvidence,
    platform_evidence: Vec<HostVersionEvidence>,
    repo_manifests: Vec<RepoReleaseManifestSummary>,
    git_conformance: &Vec<StoredGitConformanceEvidence>,
) -> (r: ReleaseConformanceReport)
    ensures
        r.generated_at_ms == current_host.recorded_at_ms,
        r.current_host == current_host,
        r.platform_evidence@ == order::sorted(platform_evidence@),
        r.repo_manifests == repo_manifests,
        ({
            let hosts = r.platform_evidence@;
            let complete = platform_seen(hosts, SupportedPlatform::Macos) && platform_seen(
                hosts,
                SupportedPlatform::Linux,
            );
            let admitted = manifests_admitted(repo_manifests@);
            &&& complete ==> is_git_floor(git_conformance@, text_of(r.exact_git_floor))
            &&& !complete ==> r.exact_git_floor is None
            &&& r.exact_git_floor_status == (if r.exact_git_floor is Some && admitted {
                FloorStatus::Closed
            } else {
                FloorStatus::Open
            })
            &&& text_of(r.exact_nix_floor) == Some(validated_nix_versions()[0])
            &&& r.exact_nix_floor_status == (if admitted && complete && nix_validated(hosts) {
                FloorStatus::Closed
            } else {
                FloorStatus::Open
            })
            &&& texts(r.blocking_reasons@) == release_obstacles(
                repo_manifests@,
                complete,
                nix_validated(hosts),
                r.exact_git_floor is Some,
            )
        }),
{
    let platform_evidence = order::sort(platform_evidence);
    let all_manifests_admitted = check_manifests(&repo_manifests);
    let supported_platforms_complete = check_platform(&platform_evidence, SupportedPlatform::Macos)
        && check_platform(&platform_evidence, SupportedPlatform::Linux);
    let exact_git_floor = if supported_platforms_complete {
        exact_git_floor_from_evidence(git_conformance)
    } else {
        None
    };
    let nix_versions_validated = check_nix(&platform_evidence);
    let mut blocking_reasons: Vec<String> = Vec::new();
    block(
        &mut blocking_reasons,
        repo_manifests.len() == 0,
        "no release manifest evidence is recorded for the selected repositories",
    );
    assert(texts(blocking_reasons@) =~= reason_if(
        repo_manifests@.len() == 0,
        "no release manifest evidence is recorded for the selected repositories"@,
    ));
    block(
        &mut blocking_reasons,
        repo_manifests.len() > 0 && !all_manifests_admitted,
        "at least one repository release manifest is missing or not fully admitted",
    );
    block(
        &mut blocking_reasons,
        !supported_platforms_complete,
        "release host evidence does not yet cover both supported platforms (macOS and Linux)",
    );
    block(
        &mut blocking_reasons,
        !nix_versions_validated,
        "recorded host Nix versions are outside the validated targeted relock matrix",
    );
    block(
        &mut blocking_reasons,
        exact_git_floor.is_none(),
        "exact Git floor evidence remains open until admitted deterministic-core git-conformance records exist for both supported platforms at the same Git version",
    );
    let exact_git_floor_status = if exact_git_floor.is_some() && all_manifests_admitted {
        FloorStatus::Closed
    } else {
        FloorStatus::Open
    };
    let exact_nix_floor_status = if all_manifests_admitted && supported_platforms_complete
        && nix_versions_validated {
        FloorStatus::Closed
    } else {
        FloorStatus::Open
    };
    let versions = validated_targeted_relock_nix_versions();
    proof {
        assert(texts(versions@).len() == versions@.len());
        assert(texts(versions@)[0] == versions@[0]@);
    }
    ReleaseConformanceReport {
        generated_at_ms: current_host.recorded_at_ms,
        current_host,
        platform_evidence,
        repo_manifests,
        exact_git_floor,
        exact_git_floor_status,
        exact_nix_floor: Some(versions[0].clone()),
        exact_nix_floor_status,
        blocking_reasons,
    }
}

/// The Git floor closes only from admitted evidence: where a floor is known, one record of the
/// deterministic core with all mandatory cases passed admits that very version on each supported
/// platform.
pub proof fn law_git_floor_needs_both_platforms(
    records: Seq<StoredGitConformanceEvidence>,
    floor: Seq<char>,
)
    requires
        is_git_floor(records, Some(floor)),
    ensures
        exists|i: int, j: int|
            {
                &&& 0 <= i < records.len()
                &&& 0 <= j < records.len()
                &&& admits(#[trigger] records[i])
                &&& admits(#[trigger] records[j])
                &&& records[i].platform == SupportedPlatform::Macos
                &&& records[j].platform == SupportedPlatform::Linux
                &&& records[i].git_version@ == floor
                &&& records[j].git_version@ == floor
            },
{
    assert(admitted_on(records, floor, SupportedPlatform::Macos));
    assert(admitted_on(records, floor, SupportedPlatform::Linux));
}

/// Nothing blocks a release exactly where both floors are closed.
pub proof fn law_unblocked_release_is_closed(
    manifests: Seq<RepoReleaseManifestSummary>,
    platforms_complete: bool,
    nix_ok: bool,
    git_floor_known: bool,
)
    ensures
        release_obstacles(manifests, platforms_complete, nix_ok, git_floor_known).len() == 0
            <==> manifests_admitted(manifests) && platforms_complete && nix_ok && git_floor_known,
{
}

// ---------------------------------------------------------------------------
// When evidence and manifests are valid

proof fn lemma_cases(cases: Seq<StoredGitConformanceCase>, i: int)
    requires
        0 <= i <= cases.len(),
    ensures
        cases_flaw(cases, i) is None <==> forall|k: int|
            i <= k < cases.len() ==> trimmed((#[trigger] cases[k]).case_id@).len() > 0
                && !case_seen(cases, cases[k].case_id@, k),
    decreases cases.len() - i,
{
    if i < cases.len() {
        lemma_cases(cases, i + 1);
    }
}

proof fn lemma_missing(cases: Seq<StoredGitConformanceCase>, ids: Seq<Seq<char>>)
    ensures
        missing_cases(cases, ids).len() == 0 <==> forall|i: int|
            0 <= i < ids.len() ==> case_seen(cases, #[trigger] ids[i], cases.len() as int),
    decreases ids.len(),
{
    if ids.len() > 0 {
        let front = ids.drop_last();
        lemma_missing(cases, front);
        assert(ids.last() == ids[ids.len() - 1]);
        if forall|i: int|
            0 <= i < ids.len() ==> case_seen(cases, #[trigger] ids[i], cases.len() as int) {
            assert forall|i: int| 0 <= i < front.len() implies case_seen(
                cases,
                #[trigger] front[i],
                cases.len() as int,
            ) by {
                assert(front[i] == ids[i]);
            }
        }
        if forall|i: int|
            0 <= i < front.len() ==> case_seen(cases, #[trigger] front[i], cases.len() as int) {
            assert forall|i: int| 0 <= i < front.len() implies case_seen(
                cases,
                #[trigger] ids[i],
                cases.len() as int,
            ) by {
                assert(front[i] == ids[i]);
            }
        }
    }
}

/// The cases that evidence must hold are numbered from one to eleven.
pub proof fn law_mandatory_cases(i: int)
    requires
        0 <= i < 11,
    ensures
        mandatory_cases().len() == 11,
        mandatory_cases()[i] == seq!['P'] + (if i < 9 {
            seq!['0', crate::text::digit_char((i + 1) as nat)]
        } else {
            seq!['1', crate::text::digit_char((i - 9) as nat)]
        }),
{
    reveal_strlit("P01");
    reveal_strlit("P02");
    reveal_strlit("P03");
    reveal_strlit("P04");
    reveal_strlit("P05");
    reveal_strlit("P06");
    reveal_strlit("P07");
    reveal_strlit("P08");
    reveal_strlit("P09");
    reveal_strlit("P10");
    reveal_strlit("P11");
    let id = mandatory_cases()[i];
    let named = seq!['P'] + (if i < 9 {
        seq!['0', crate::text::digit_char((i + 1) as nat)]
    } else {
        seq!['1', crate::text::digit_char((i - 9) as nat)]
    });
    assert(id.len() == 3);
    assert(id =~= named);
}

/// Evidence is valid exactly where it is of a supported platform, under the directory and the key
/// of what it is about, says all that it must, has each of its cases once and the mandatory ones
/// among them, does not claim a success that a case denies, and was recorded deterministically.
pub proof fn law_valid_evidence(
    path: Seq<char>,
    platform_name: Seq<char>,
    e: StoredGitConformanceEvidence,
)
    ensures
        evidence_flaw(path, platform_name, e) is None <==> {
            &&& platform_name == (if e.platform == SupportedPlatform::Macos {
                "macos"@
            } else {
                "linux"@
            })
            &&& e.schema_version == 1
            &&& trimmed(e.git_version@).len() > 0
            &&& e.git_version_key@ == path_component(e.git_version@)
            &&& file_key(path) == e.git_version_key@
            &&& trimmed(e.nix_system@).len() > 0
            &&& e.service_manager == (if e.platform == SupportedPlatform::Macos {
                ServiceManager::Launchd
            } else {
                ServiceManager::Systemd
            })
            &&& trimmed(e.openssh_version@).len() > 0
            &&& trimmed(e.filesystem_profile@).len() > 0
            &&& trimmed(e.git_relay_commit@).len() > 0
            &&& trimmed(e.flake_lock_sha256@).len() > 0
            &&& trimmed(e.binary_digests.git_relay@).len() > 0
            &&& trimmed(e.binary_digests.git_relayd@).len() > 0
            &&& trimmed(e.binary_digests.git_relay_install_hooks@).len() > 0
            &&& trimmed(e.binary_digests.git_relay_ssh_force_command@).len() > 0
            &&& forall|k: int|
                0 <= k < e.cases@.len() ==> trimmed((#[trigger] e.cases@[k]).case_id@).len() > 0
                    && !case_seen(e.cases@, e.cases@[k].case_id@, k)
            &&& forall|i: int|
                0 <= i < mandatory_cases().len() ==> case_seen(
                    e.cases@,
                    #[trigger] mandatory_cases()[i],
                    e.cases@.len() as int,
                )
            &&& e.all_mandatory_cases_passed ==> forall|k: int|
                0 <= k < e.cases@.len() ==> (#[trigger] e.cases@[k]).status
                    != StoredGitConformanceCaseStatus::Fail
            &&& trimmed(e.normalized_summary_sha256@).len() > 0
            &&& e.recorded_at_ms == 0
        },
{
    lemma_cases(e.cases@, 0);
    lemma_missing(e.cases@, mandatory_cases());
    if e.cases@.len() == 0 {
        assert(!case_seen(e.cases@, mandatory_cases()[0], 0));
    }
}

proof fn lemma_entries(
    entries: Seq<StoredReleaseManifestEntry>,
    found: Seq<bool>,
    targets: Seq<MatrixTargetEntry>,
    i: int,
)
    requires
        0 <= i <= entries.len(),
    ensures
        entries_flaw(entries, found, targets, i) is None <==> forall|k: int|
            i <= k < entries.len() ==> #[trigger] entry_flaw(entries, found, targets, k) is None,
    decreases entries.len() - i,
{
    if i < entries.len() {
        lemma_entries(entries, found, targets, i + 1);
    }
}

/// A stored manifest is valid by itself exactly where it is that of the repository, tells when and
/// from which run and targets it was made, its files are there, it has an entry, and it says that
/// all are admitted exactly where they are.
pub proof fn law_valid_manifest_headers(
    repo_id: Seq<char>,
    m: StoredReleaseManifest,
    targets_exist: bool,
    probe_run_exists: bool,
)
    ensures
        manifest_header_flaw(repo_id, m, targets_exist, probe_run_exists) is None <==> {
            &&& m.repo_id@ == repo_id
            &&& m.generated_at_ms > 0
            &&& m.repo_path@.len() > 0
            &&& m.manifest_path@.len() > 0
            &&& trimmed(m.probe_run_id@).len() > 0
            &&& m.probe_run_path@.len() > 0
            &&& targets_exist
            &&& probe_run_exists
            &&& m.entries@.len() > 0
            &&& m.all_entries_admitted <==> forall|i: int|
                0 <= i < m.entries@.len() ==> (#[trigger] m.entries@[i]).admitted
        },
{
}

/// Whether an entry stands on evidence that is there, tells what it is about, and gives no empty
/// reason.
pub open spec fn sound_entry(e: StoredReleaseManifestEntry, evidence_found: bool) -> bool {
    &&& trimmed(e.target_id@).len() > 0
    &&& trimmed(e.product@).len() > 0
    &&& trimmed(e.url@).len() > 0
    &&& e.evidence_path@.len() > 0
    &&& evidence_found
    &&& forall|i: int|
        0 <= i < e.admission_reasons@.len() ==> trimmed(
            (#[trigger] e.admission_reasons@[i])@,
        ).len() > 0
}

/// The entry of a manifest at an index is without flaw exactly where it is sound, no entry before
/// it is about the same target, and it is about a declared target as it was declared.
pub proof fn law_sound_entries(
    entries: Seq<StoredReleaseManifestEntry>,
    found: Seq<bool>,
    targets: Seq<MatrixTargetEntry>,
    i: int,
)
    requires
        0 <= i < entries.len(),
    ensures
        entry_flaw(entries, found, targets, i) is None <==> {
            let e = entries[i];
            let at = declared_index(targets, e.target_id@, 0);
            &&& sound_entry(e, found[i])
            &&& forall|j: int|
                0 <= j < i ==> (#[trigger] entries[j]).target_id@ != e.target_id@
            &&& at < targets.len()
            &&& e.product@ == targets[at].product@
            &&& e.class == targets[at].class
            &&& e.transport == targets[at].transport
            &&& e.url@ == targets[at].url@
            &&& e.require_atomic == targets[at].require_atomic
            &&& e.same_repo_hidden_refs == targets[at].same_repo_hidden_refs
        },
{
    let reasons = entries[i].admission_reasons@;
    assert(some_blank(reasons) <==> !(forall|k: int|
        0 <= k < reasons.len() ==> trimmed((#[trigger] reasons[k])@).len() > 0));
}

/// A stored manifest fits the declared targets exactly where these are of the known version, there
/// is one, each has an id of its own, every entry is without flaw, and every target has an entry.
pub proof fn law_manifests_that_fit(
    m: StoredReleaseManifest,
    declared: MatrixTargetManifest,
    found: Seq<bool>,
)
    ensures
        manifest_targets_flaw(m, declared, found) is None <==> {
            let targets = declared.targets@;
            let entries = m.entries@;
            &&& declared.schema_version == 1
            &&& targets.len() > 0
            &&& forall|i: int|
                0 <= i < targets.len() ==> trimmed((#[trigger] targets[i]).target_id@).len() > 0
                    && !id_taken(targets, targets[i].target_id@, i)
            &&& forall|i: int|
                0 <= i < entries.len() ==> #[trigger] entry_flaw(entries, found, targets, i) is None
            &&& forall|i: int|
                0 <= i < targets.len() ==> entry_seen(
                    entries,
                    (#[trigger] targets[i]).target_id@,
                    entries.len() as int,
                )
        },
{
    lemma_declared(declared.targets@, 0);
    lemma_entries(m.entries@, found, declared.targets@, 0);
}

proof fn lemma_declared(targets: Seq<MatrixTargetEntry>, i: int)
    requires
        0 <= i <= targets.len(),
    ensures
        declared_flaw(targets, i) is None <==> forall|k: int|
            i <= k < targets.len() ==> trimmed((#[trigger] targets[k]).target_id@).len() > 0
                && !id_taken(targets, targets[k].target_id@, k),
    decreases targets.len() - i,
{
    if i < targets.len() {
        lemma_declared(targets, i + 1);
    }
}

/// The Git floor is found wherever it can be: two records of the deterministic core, one of each
/// platform, whose mandatory cases all passed, admit their common version, so that there is a floor
/// and it is no later than that version.
pub proof fn law_git_floor_is_found(
    records: Seq<StoredGitConformanceEvidence>,
    i: int,
    j: int,
    floor: Option<Seq<char>>,
)
    requires
        0 <= i < records.len(),
        0 <= j < records.len(),
        records[i].platform == SupportedPlatform::Macos,
        records[j].platform == SupportedPlatform::Linux,
        records[i].git_version@ == records[j].git_version@,
        records[i].profile == StoredGitConformanceProfile::DeterministicCore,
        records[j].profile == StoredGitConformanceProfile::DeterministicCore,
        records[i].all_mandatory_cases_passed,
        records[j].all_mandatory_cases_passed,
        is_git_floor(records, floor),
    ensures
        floor is Some,
        version_le(floor->0, records[i].git_version@),
        forall|k: int|
            0 <= k < records.len() ==> (#[trigger] admits(records[k]) ==> records[k].profile
                == StoredGitConformanceProfile::DeterministicCore
                && records[k].all_mandatory_cases_passed),
{
    let version = records[i].git_version@;
    assert(admits(records[i]) && admits(records[j]));
    assert(admitted_on(records, version, SupportedPlatform::Macos));
    assert(admitted_on(records, version, SupportedPlatform::Linux));
    assert(admitted_everywhere(records, version));
}

/// The numbers of a version are read one by one, whatever stands between them.
pub proof fn law_version_numbers(n: u64, c: char, rest: Seq<char>)
    requires
        !is_digit(c),
    ensures
        version_numbers(crate::text::decimal(n as nat) + seq![c] + rest) == seq![n]
            + version_numbers(rest),
        version_numbers(crate::text::decimal(n as nat)) == seq![n],
        version_numbers(seq![c] + rest) == version_numbers(rest),
{
    let head = crate::text::decimal(n as nat);
    let p = crate::config::digits();
    crate::text::lemma_decimal_number(n as nat);
    let tail = seq![c] + rest;
    let s = head + seq![c] + rest;
    assert(tail.skip(1) =~= rest);
    assert(tail[0] == c);
    assert(version_numbers(tail) == version_numbers(rest));
    assert forall|i: int| 0 <= i < head.len() implies p(#[trigger] s[i]) by {
        assert(s[i] == head[i]);
        assert(is_digit(head[i]));
    }
    assert forall|i: int| 0 <= i < head.len() implies p(#[trigger] head[i]) by {
        assert(is_digit(head[i]));
    }
    assert(s[head.len() as int] == c);
    crate::text::lemma_run_is(s, p, head.len());
    crate::text::lemma_run_is(head, p, head.len());
    assert(s.take(head.len() as int) =~= head);
    assert(s.skip(head.len() as int) =~= tail);
    assert(is_digit(s[0]) && is_digit(head[0])) by {
        assert(p(s[0]) && p(head[0]));
    }
    assert(number_or_zero(head) == n);
    assert(0 < head.len() < s.len());
    assert(version_numbers(s) == seq![number_or_zero(head)] + version_numbers(tail));
}

/// Versions are ordered by their first number that differs, and one that goes on comes after the
/// one that ends.
pub proof fn law_versions_are_ordered_by_numbers(
    common: Seq<u64>,
    x: u64,
    y: u64,
    a: Seq<u64>,
    b: Seq<u64>,
)
    requires
        x < y,
    ensures
        numbers_le(common + seq![x] + a, common + seq![y] + b),
        !numbers_le(common + seq![y] + b, common + seq![x] + a),
        numbers_le(common, common + seq![x] + a),
        !numbers_le(common + seq![x] + a, common),
    decreases common.len(),
{
    let left = common + seq![x] + a;
    let right = common + seq![y] + b;
    if common.len() > 0 {
        law_versions_are_ordered_by_numbers(common.skip(1), x, y, a, b);
        assert(left.skip(1) =~= common.skip(1) + seq![x] + a);
        assert(right.skip(1) =~= common.skip(1) + seq![y] + b);
        assert(left[0] == common[0] && right[0] == common[0]);
    } else {
        assert(left[0] == x && right[0] == y);
    }
}

/// A report covers exactly the authoritative repositories, or the one of them that is asked for.
pub proof fn law_covered_repositories(
    descriptors: Seq<RepositoryDescriptor>,
    target: Option<Seq<char>>,
    n: int,
    id: Seq<char>,
)
    requires
        0 <= n <= descriptors.len(),
    ensures
        selected_ids(descriptors, target, n).contains(id) <==> (target is None || target == Some(
            id,
        )) && exists|i: int|
            0 <= i < n && (#[trigger] descriptors[i]).repo_id@ == id && descriptors[i].mode
                == RepositoryMode::Authoritative,
    decreases n,
{
    let all = selected_ids(descriptors, target, n);
    if n > 0 {
        law_covered_repositories(descriptors, target, n - 1, id);
        let before = selected_ids(descriptors, target, n - 1);
        let d = descriptors[n - 1];
        if before.contains(id) {
            let k = choose|k: int| 0 <= k < before.len() && before[k] == id;
            assert(all[k] == id);
        }
        if d.repo_id@ == id && d.mode == RepositoryMode::Authoritative && (target is None || target
            == Some(id)) {
            assert(all[all.len() - 1] == id);
        }
        if all.contains(id) {
            let k = choose|k: int| 0 <= k < all.len() && all[k] == id;
            if k < before.len() {
                assert(before[k] == id);
                assert(before.contains(id));
            } else {
                assert(descriptors[n - 1].repo_id@ == id);
            }
        }
    }
}

/// The number of admitted entries is the number of those that are, and it is the number of all
/// exactly where all are.
pub proof fn law_admitted_entries_are_counted(entries: Seq<StoredReleaseManifestEntry>, n: int)
    requires
        0 <= n <= entries.len(),
    ensures
        admitted_count(entries, n) == entries.take(n).filter(
            |e: StoredReleaseManifestEntry| e.admitted,
        ).len(),
        admitted_count(entries, n) <= n,
        admitted_count(entries, n) == n <==> forall|i: int|
            0 <= i < n ==> (#[trigger] entries[i]).admitted,
    decreases n,
{
    reveal(Seq::filter);
    if n > 0 {
        law_admitted_entries_are_counted(entries, n - 1);
        assert(entries.take(n).drop_last() =~= entries.take(n - 1));
    }
}

/// Each thing that keeps a release from being closed is named.
pub proof fn law_obstacles_are_named(
    manifests: Seq<RepoReleaseManifestSummary>,
    platforms_complete: bool,
    nix_ok: bool,
    git_floor_known: bool,
)
    ensures
        ({
            let named = release_obstacles(manifests, platforms_complete, nix_ok, git_floor_known);
            &&& manifests.len() == 0 ==> named.contains(
                "no release manifest evidence is recorded for the selected repositories"@,
            )
            &&& manifests.len() > 0 && (exists|i: int|
                0 <= i < manifests.len() && !((#[trigger] manifests[i]).manifest_present
                    && manifests[i].all_entries_admitted)) ==> named.contains(
                "at least one repository release manifest is missing or not fully admitted"@,
            )
            &&& !platforms_complete ==> named.contains(
                "release host evidence does not yet cover both supported platforms (macOS and Linux)"@,
            )
            &&& !nix_ok ==> named.contains(
                "recorded host Nix versions are outside the validated targeted relock matrix"@,
            )
            &&& !git_floor_known ==> named.contains(
                "exact Git floor evidence remains open until admitted deterministic-core git-conformance records exist for both supported platforms at the same Git version"@,
            )
        }),
{
    let named = release_obstacles(manifests, platforms_complete, nix_ok, git_floor_known);
    let a = reason_if(
        manifests.len() == 0,
        "no release manifest evidence is recorded for the selected repositories"@,
    );
    let b = reason_if(
        manifests.len() > 0 && !manifests_admitted(manifests),
        "at least one repository release manifest is missing or not fully admitted"@,
    );
    let c = reason_if(
        !platforms_complete,
        "release host evidence does not yet cover both supported platforms (macOS and Linux)"@,
    );
    let d = reason_if(
        !nix_ok,
        "recorded host Nix versions are outside the validated targeted relock matrix"@,
    );
    if manifests.len() == 0 {
        assert(named[0] == a[0]);
    }
    if manifests.len() > 0 && !manifests_admitted(manifests) {
        assert(named[a.len() as int] == b[0]);
    }
    if !platforms_complete {
        assert(named[(a.len() + b.len()) as int] == c[0]);
    }
    if !nix_ok {
        assert(named[(a.len() + b.len() + c.len()) as int] == d[0]);
    }
    if !git_floor_known {
        let at = (a.len() + b.len() + c.len() + d.len()) as int;
        assert(named[at]
            == "exact Git floor evidence remains open until admitted deterministic-core git-conformance records exist for both supported platforms at the same Git version"@);
    }
}

/// Without a manifest nothing is admitted, and one that is missing or that holds an entry which is
/// not admitted keeps all from being so.
pub proof fn law_admitted_manifests(manifests: Seq<RepoReleaseManifestSummary>, i: int)
    requires
        0 <= i < manifests.len(),
    ensures
        !manifests_admitted(Seq::empty()),
        manifests_admitted(manifests) ==> manifests[i].manifest_present
            && manifests[i].all_entries_admitted,
        manifests[i].manifest_present && manifests[i].all_entries_admitted && (manifests_admitted(
            manifests.remove(i),
        ) || manifests.len() == 1) ==> manifests_admitted(manifests),
{
    if manifests[i].manifest_present && manifests[i].all_entries_admitted && (manifests_admitted(
        manifests.remove(i),
    ) || manifests.len() == 1) {
        assert forall|k: int| 0 <= k < manifests.len() implies (
        #[trigger] manifests[k]).manifest_present && manifests[k].all_entries_admitted by {
            if k < i {
                assert(manifests[k] == manifests.remove(i)[k]);
            } else if k > i {
                assert(manifests[k] == manifests.remove(i)[k - 1]);
            }
        }
    }
}

/// Hosts are listed by platform, macOS behind Linux, and those of one platform by their ids.
pub proof fn law_hosts_are_ordered(a: HostVersionEvidence, b: HostVersionEvidence)
    ensures
        a.platform == b.platform ==> (order::Ordered::le(&a, &b) <==> text_le(
            a.host_id@,
            b.host_id@,
        )),
        a.platform == SupportedPlatform::Linux && b.platform == SupportedPlatform::Macos
            ==> order::Ordered::le(&a, &b) && !order::Ordered::le(&b, &a),
{
    reveal_strlit("linux");
    reveal_strlit("macos");
    assert("linux"@[0] == 'l' && "macos"@[0] == 'm');
}

} // verus!
