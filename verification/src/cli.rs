//! What the commands of an operator decide: which repositories they concern, and whether they
//! succeed.

use crate::classification::{
    classified, classify_startup_with_markers, RepositorySafetyState, StartupClassification,
};
use crate::config::{ConfigError, RepositoryDescriptor};
use crate::deploy::{RuntimeValidationReport, RuntimeValidationStatus};
use crate::migration::{
    bad_option, class_targets_in, host_targets_in, input_classes_in, input_targets_in,
    parse_policy_overrides, MigrationError, MigrationRequest,
};
use crate::read_path::ReadPathError;
use crate::reconcile::{
    descriptor_index, find_descriptor, DivergenceMarker, ReconcileError, ReplicationStatus,
};
use crate::release::ReleaseError;
use crate::text::{concat2, concat3};
use crate::upstream::UpstreamProbeError;
use crate::validator::{
    reports, ValidationInfrastructureError, ValidationReport, ValidationStatus,
};
use vstd::prelude::*;

verus! {

#[derive(Debug)]
pub enum CliError {
    Config(ConfigError),
    Migration(MigrationError),
    Reconcile(ReconcileError),
    UpstreamProbe(UpstreamProbeError),
    ReadPath(ReadPathError),
    ValidationInfrastructure(ValidationInfrastructureError),
    Release(ReleaseError),
    RepositoryNotFound(String),
    Io(String),
}

impl CliError {
    pub open spec fn message_text(self) -> Seq<char> {
        match self {
            CliError::Config(error) => error.message_text(),
            CliError::Migration(error) => error.message_text(),
            CliError::Reconcile(error) => error.message_text(),
            CliError::UpstreamProbe(error) => error.message_text(),
            CliError::ReadPath(error) => error.message_text(),
            CliError::ValidationInfrastructure(error) => error.message_text(),
            CliError::Release(error) => error.message_text(),
            CliError::RepositoryNotFound(repo) => "repository "@ + repo@ + " was not found in the descriptor set"@,
            CliError::Io(error) => "failed to write command output: "@ + error@,
        }
    }

    /// The error in words.
    pub fn message(&self) -> (r: String)
        ensures
            r@ == self.message_text(),
    {
        match self {
            CliError::Config(error) => error.message(),
            CliError::Migration(error) => error.message(),
            CliError::Reconcile(error) => error.message(),
            CliError::UpstreamProbe(error) => error.message(),
            CliError::ReadPath(error) => error.message(),
            CliError::ValidationInfrastructure(error) => error.message(),
            CliError::Release(error) => error.message(),
            CliError::RepositoryNotFound(repo) => concat3("repository ", repo, " was not found in the descriptor set"),
            CliError::Io(error) => concat2("failed to write command output: ", error),
        }
    }
}

/// The repositories that a command concerns: all, or the one that was asked for.
pub fn select_repositories(descriptors: Vec<RepositoryDescriptor>, target_repo: Option<&str>) -> (r:
    Result<Vec<RepositoryDescriptor>, CliError>)
    ensures
        match target_repo {
            None => r is Ok && r->Ok_0 == descriptors,
            Some(target) => {
                let i = descriptor_index(descriptors@, target@, 0);
                if i < descriptors@.len() {
                    r is Ok && r->Ok_0@ == seq![descriptors@[i]]
                } else {
                    r is Err && r->Err_0 is RepositoryNotFound
                        && r->Err_0->RepositoryNotFound_0@ == target@
                }
            },
        },
{
    let target = match target_repo {
        Some(target) => target,
        None => {
            return Ok(descriptors);
        },
    };
    let i = find_descriptor(&descriptors, target);
    if i >= descriptors.len() {
        return Err(CliError::RepositoryNotFound(target.to_owned()));
    }
    let mut descriptors = descriptors;
    let descriptor = descriptors.remove(i);
    Ok(vec![descriptor])
}

/// What is known of a repository.
#[derive(Debug)]
pub struct RepoInspectionReport {
    pub descriptor: RepositoryDescriptor,
    pub validation: ValidationReport,
    pub startup: StartupClassification,
    pub replication: ReplicationStatus,
    pub divergence_markers: Vec<DivergenceMarker>,
}

#[derive(Debug)]
pub struct DoctorReport {
    pub runtime_validation: RuntimeValidationReport,
    pub repositories: Vec<RepoInspectionReport>,
}

/// What is known of a repository, put together.
pub fn build_repo_inspection(
    descriptor: RepositoryDescriptor,
    validation: ValidationReport,
    divergence_markers: Vec<DivergenceMarker>,
    replication: ReplicationStatus,
) -> (r: RepoInspectionReport)
    ensures
        r.descriptor == descriptor,
        r.validation == validation,
        r.divergence_markers == divergence_markers,
        r.replication == replication,
        classified(descriptor, validation, divergence_markers@.len(), r.startup),
{
    let startup = classify_startup_with_markers(
        &descriptor,
        &validation,
        divergence_markers.len(),
    );
    RepoInspectionReport { descriptor, validation, startup, replication, divergence_markers }
}

/// Whether every report passed.
pub fn all_passed(reports: &Vec<ValidationReport>) -> (r: bool)
    ensures
        r == forall|i: int|
            0 <= i < reports@.len() ==> (#[trigger] reports@[i]).status == ValidationStatus::Passed,
{
    let mut i: usize = 0;
    while i < reports.len()
        invariant
            i <= reports@.len(),
            forall|j: int|
                0 <= j < i ==> (#[trigger] reports@[j]).status == ValidationStatus::Passed,
        decreases reports@.len() - i,
    {
        if !reports[i].passed() {
            return false;
        }
        i += 1;
    }
    true
}

/// Whether a repository is in order: it passed, and it is neither divergent nor quarantined.
pub open spec fn in_order(report: RepoInspectionReport) -> bool {
    report.validation.status == ValidationStatus::Passed && report.startup.safety
        != RepositorySafetyState::Divergent && report.startup.safety
        != RepositorySafetyState::Quarantined
}

/// Whether the relay and its repositories are in order.
pub fn doctor_passed(report: &DoctorReport) -> (r: bool)
    ensures
        r == (report.runtime_validation.status == RuntimeValidationStatus::Passed && forall|i: int|
            0 <= i < report.repositories@.len() ==> in_order(#[trigger] report.repositories@[i])),
{
    if !report.runtime_validation.passed() {
        return false;
    }
    let repositories = &report.repositories;
    let mut i: usize = 0;
    while i < repositories.len()
        invariant
            i <= repositories@.len(),
            *repositories == report.repositories,
            forall|j: int| 0 <= j < i ==> in_order(#[trigger] repositories@[j]),
        decreases repositories@.len() - i,
    {
        let repository = &repositories[i];
        if !repository.validation.passed() || repository.startup.safety
            == RepositorySafetyState::Divergent || repository.startup.safety
            == RepositorySafetyState::Quarantined {
            assert(!in_order(repositories@[i as int]));
            return false;
        }
        i += 1;
    }
    true
}

/// Whether every repository accepts writes after a start.
pub fn startup_valid(classifications: &Vec<StartupClassification>) -> (r: bool)
    ensures
        r == forall|i: int|
            0 <= i < classifications@.len() ==> (
            #[trigger] classifications@[i]).write_acceptance_allowed,
{
    let mut i: usize = 0;
    while i < classifications.len()
        invariant
            i <= classifications@.len(),
            forall|j: int|
                0 <= j < i ==> (#[trigger] classifications@[j]).write_acceptance_allowed,
        decreases classifications@.len() - i,
    {
        if !classifications[i].write_acceptance_allowed {
            return false;
        }
        i += 1;
    }
    true
}

/// The request that the options of a command say.
pub fn build_migration_request(
    flake_path: String,
    allow_dirty: bool,
    input_targets: &Vec<String>,
    host_targets: &Vec<String>,
    class_targets: &Vec<String>,
    input_classes: &Vec<String>,
) -> (r: Result<MigrationRequest, CliError>)
    ensures
        match r {
            Ok(request) => {
                &&& request.flake_path == flake_path
                &&& request.allow_dirty == allow_dirty
                &&& input_targets_in(input_targets@) is Ok
                &&& host_targets_in(host_targets@) is Ok
                &&& class_targets_in(class_targets@) is Ok
                &&& input_classes_in(input_classes@) is Ok
                &&& request.policy.input_targets@ == input_targets_in(input_targets@)->Ok_0
                &&& request.policy.host_targets@ == host_targets_in(host_targets@)->Ok_0
                &&& request.policy.class_targets == class_targets_in(class_targets@)->Ok_0
                &&& request.policy.input_classes@ == input_classes_in(input_classes@)->Ok_0
            },
            Err(CliError::Migration(error)) => if input_targets_in(input_targets@) is Err {
                bad_option(error, "input-target"@, input_targets_in(input_targets@)->Err_0)
            } else if host_targets_in(host_targets@) is Err {
                bad_option(error, "host-target"@, host_targets_in(host_targets@)->Err_0)
            } else if class_targets_in(class_targets@) is Err {
                bad_option(error, "class-target"@, class_targets_in(class_targets@)->Err_0)
            } else {
                input_classes_in(input_classes@) is Err && bad_option(
                    error,
                    "input-class"@,
                    input_classes_in(input_classes@)->Err_0,
                )
            },
            Err(_) => false,
        },
{
    match parse_policy_overrides(input_targets, host_targets, class_targets, input_classes) {
        Ok(policy) => Ok(MigrationRequest { flake_path, allow_dirty, policy }),
        Err(error) => Err(CliError::Migration(error)),
    }
}

/// A repository is in order where nothing was found to be wrong with it and no upstream of it is
/// marked as divergent.
pub proof fn law_repositories_in_order(
    report: RepoInspectionReport,
    issues: Seq<(Seq<char>, Seq<char>)>,
)
    requires
        reports(report.validation, report.descriptor, issues),
        classified(
            report.descriptor,
            report.validation,
            report.divergence_markers@.len(),
            report.startup,
        ),
    ensures
        in_order(report) <==> issues.len() == 0 && report.divergence_markers@.len() == 0,
{
}

} // verus!
