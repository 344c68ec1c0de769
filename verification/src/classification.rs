//! The state in which a repository starts up.

use crate::config::{RepositoryDescriptor, RepositoryLifecycle, RepositoryMode};
use crate::validator::{reports, ValidationReport, ValidationStatus};
use vstd::prelude::*;

verus! {

#[derive(Debug, Clone, Copy, PartialEq, Eq, Structural)]
pub enum RepositorySafetyState {
    Healthy,
    Degraded,
    Divergent,
    Quarantined,
}

#[derive(Debug, Clone, Copy, PartialEq, Eq, Structural)]
pub enum UpstreamConvergenceState {
    Unknown,
    InSync,
    OutOfSync,
    Stalled,
    Unsupported,
}

#[derive(Debug, Clone, PartialEq, Eq)]
pub struct UpstreamStartupState {
    pub upstream_id: String,
    pub state: UpstreamConvergenceState,
}

#[derive(Debug, Clone, PartialEq, Eq)]
pub struct StartupClassification {
    pub repo_id: String,
    pub lifecycle: RepositoryLifecycle,
    pub safety: RepositorySafetyState,
    pub write_acceptance_allowed: bool,
    pub upstreams: Vec<UpstreamStartupState>,
}

/// The names of a repository's upstreams: those it reads from, then those it writes to.
pub open spec fn upstream_names(d: RepositoryDescriptor) -> Seq<Seq<char>> {
    Seq::new(d.read_upstreams@.len(), |i: int| d.read_upstreams@[i].name@) + Seq::new(
        d.write_upstreams@.len(),
        |i: int| d.write_upstreams@[i].name@,
    )
}

/// What a list of upstream states names.
pub open spec fn state_names(upstreams: Seq<UpstreamStartupState>) -> Seq<Seq<char>> {
    Seq::new(upstreams.len(), |i: int| upstreams[i].upstream_id@)
}

/// How safe a repository is when it starts up: an authoritative one that fails validation is
/// quarantined; one that is still provisioned is degraded, as is an authoritative one whose
/// upstreams were not observed yet.
pub open spec fn startup_safety(d: RepositoryDescriptor, passed: bool) -> RepositorySafetyState {
    if d.mode == RepositoryMode::Authoritative && !passed {
        RepositorySafetyState::Quarantined
    } else if d.lifecycle == RepositoryLifecycle::Provisioning || (d.mode
        == RepositoryMode::Authoritative && upstream_names(d).len() > 0) {
        RepositorySafetyState::Degraded
    } else {
        RepositorySafetyState::Healthy
    }
}

/// The state in which a repository starts up.
pub fn classify_startup(descriptor: &RepositoryDescriptor, validation: &ValidationReport) -> (r:
    StartupClassification)
    ensures
        r.repo_id@ == descriptor.repo_id@,
        r.lifecycle == descriptor.lifecycle,
        r.safety == startup_safety(*descriptor, validation.status == ValidationStatus::Passed),
        r.write_acceptance_allowed == validation.write_acceptance_allowed,
        state_names(r.upstreams@) == upstream_names(*descriptor),
        forall|i: int|
            0 <= i < r.upstreams@.len() ==> (#[trigger] r.upstreams@[i]).state
                == UpstreamConvergenceState::Unknown,
{
    let mut upstreams: Vec<UpstreamStartupState> = Vec::new();
    let reads = &descriptor.read_upstreams;
    let mut i: usize = 0;
    while i < reads.len()
        invariant
            i <= reads@.len(),
            upstreams@.len() == i,
            forall|k: int|
                0 <= k < i ==> (#[trigger] upstreams@[k]).upstream_id@ == reads@[k].name@
                    && upstreams@[k].state == UpstreamConvergenceState::Unknown,
        decreases reads@.len() - i,
    {
        upstreams.push(
            UpstreamStartupState {
                upstream_id: reads[i].name.clone(),
                state: UpstreamConvergenceState::Unknown,
            },
        );
        i += 1;
    }
    let writes = &descriptor.write_upstreams;
    let mut k: usize = 0;
    while k < writes.len()
        invariant
            k <= writes@.len(),
            upstreams@.len() == reads@.len() + k,
            forall|j: int|
                0 <= j < reads@.len() ==> (#[trigger] upstreams@[j]).upstream_id@ == reads@[j].name@,
            forall|j: int|
                0 <= j < upstreams@.len() ==> (#[trigger] upstreams@[j]).state
                    == UpstreamConvergenceState::Unknown,
            forall|j: int|
                reads@.len() <= j < reads@.len() + k ==> (#[trigger] upstreams@[j]).upstream_id@
                    == writes@[j - reads@.len()].name@,
        decreases writes@.len() - k,
    {
        upstreams.push(
            UpstreamStartupState {
                upstream_id: writes[k].name.clone(),
                state: UpstreamConvergenceState::Unknown,
            },
        );
        k += 1;
    }
    assert(state_names(upstreams@) =~= upstream_names(*descriptor));
    let safety = if descriptor.mode == RepositoryMode::Authoritative && !validation.passed() {
        RepositorySafetyState::Quarantined
    } else if descriptor.lifecycle == RepositoryLifecycle::Provisioning {
        RepositorySafetyState::Degraded
    } else if descriptor.mode == RepositoryMode::Authoritative && upstreams.len() > 0 {
        RepositorySafetyState::Degraded
    } else {
        RepositorySafetyState::Healthy
    };
    assert(state_names(upstreams@).len() == upstreams@.len());
    StartupClassification {
        repo_id: descriptor.repo_id.clone(),
        lifecycle: descriptor.lifecycle,
        safety,
        write_acceptance_allowed: validation.write_acceptance_allowed,
        upstreams,
    }
}

/// Whether `r` is the class of a repository of which so many upstreams are marked as divergent: a
/// repository that passed and has such an upstream is divergent and accepts no writes.
pub open spec fn classified(
    descriptor: RepositoryDescriptor,
    validation: ValidationReport,
    divergence_markers: nat,
    r: StartupClassification,
) -> bool {
    let passed = validation.status == ValidationStatus::Passed;
    let divergent = passed && divergence_markers > 0;
    &&& r.repo_id@ == descriptor.repo_id@
    &&& r.lifecycle == descriptor.lifecycle
    &&& r.safety == (if divergent {
        RepositorySafetyState::Divergent
    } else {
        startup_safety(descriptor, passed)
    })
    &&& r.write_acceptance_allowed == (validation.write_acceptance_allowed && !divergent)
    &&& state_names(r.upstreams@) == upstream_names(descriptor)
    &&& forall|i: int|
        0 <= i < r.upstreams@.len() ==> (#[trigger] r.upstreams@[i]).state
            == UpstreamConvergenceState::Unknown
}

/// The state in which a repository starts up once its divergence markers are known: a valid one
/// with a marker is divergent and takes no writes.
pub fn classify_startup_with_markers(
    descriptor: &RepositoryDescriptor,
    validation: &ValidationReport,
    divergence_markers: usize,
) -> (r: StartupClassification)
    ensures
        classified(*descriptor, *validation, divergence_markers as nat, r),
{
    let mut classification = classify_startup(descriptor, validation);
    if validation.passed() && divergence_markers > 0 {
        classification.safety = RepositorySafetyState::Divergent;
        classification.write_acceptance_allowed = false;
    }
    classification
}

/// Startup fails closed: a repository that takes writes is authoritative, ready, without an issue
/// and without a divergence marker; an authoritative one with an issue is quarantined, and a valid
/// one with a marker divergent.
pub proof fn law_startup_fails_closed(
    d: RepositoryDescriptor,
    issues: Seq<(Seq<char>, Seq<char>)>,
    validation: ValidationReport,
    divergence_markers: nat,
    r: StartupClassification,
)
    requires
        reports(validation, d, issues),
        classified(d, validation, divergence_markers, r),
    ensures
        r.write_acceptance_allowed <==> d.mode == RepositoryMode::Authoritative && d.lifecycle
            == RepositoryLifecycle::Ready && issues.len() == 0 && divergence_markers == 0,
        r.write_acceptance_allowed ==> r.safety != RepositorySafetyState::Quarantined && r.safety
            != RepositorySafetyState::Divergent,
        r.safety == RepositorySafetyState::Quarantined <==> d.mode == RepositoryMode::Authoritative
            && issues.len() > 0,
        r.safety == RepositorySafetyState::Divergent <==> issues.len() == 0 && divergence_markers
            > 0,
{
}

/// A repository starts up healthy exactly where nothing speaks against it: it is past its
/// provisioning, no upstream of it is marked, and, where it is authoritative, it is without an
/// issue and has no upstream that must be observed first. Its upstreams are all named, those that
/// it reads from before those that it writes to, and nothing is claimed of them yet.
pub proof fn law_healthy_startup(
    d: RepositoryDescriptor,
    issues: Seq<(Seq<char>, Seq<char>)>,
    validation: ValidationReport,
    divergence_markers: nat,
    r: StartupClassification,
)
    requires
        reports(validation, d, issues),
        classified(d, validation, divergence_markers, r),
    ensures
        r.repo_id@ == d.repo_id@,
        r.lifecycle == d.lifecycle,
        r.safety == RepositorySafetyState::Healthy <==> d.lifecycle
            != RepositoryLifecycle::Provisioning && (issues.len() == 0 ==> divergence_markers == 0)
            && (d.mode == RepositoryMode::Authoritative ==> issues.len() == 0
            && d.read_upstreams@.len() == 0 && d.write_upstreams@.len() == 0),
        r.upstreams@.len() == d.read_upstreams@.len() + d.write_upstreams@.len(),
        forall|i: int|
            0 <= i < d.read_upstreams@.len() ==> (#[trigger] r.upstreams@[i]).upstream_id@
                == d.read_upstreams@[i].name@,
        forall|i: int|
            d.read_upstreams@.len() <= i < r.upstreams@.len() ==> (
            #[trigger] r.upstreams@[i]).upstream_id@ == d.write_upstreams@[i
                - d.read_upstreams@.len()].name@,
        forall|i: int|
            0 <= i < r.upstreams@.len() ==> (#[trigger] r.upstreams@[i]).state
                == UpstreamConvergenceState::Unknown,
{
    let names = upstream_names(d);
    assert(state_names(r.upstreams@).len() == r.upstreams@.len());
    assert forall|i: int| 0 <= i < r.upstreams@.len() implies names[i] == (
    #[trigger] r.upstreams@[i]).upstream_id@ by {
        assert(state_names(r.upstreams@)[i] == r.upstreams@[i].upstream_id@);
    }
}

} // verus!
