//! The migration of a flake step by step: what to do next, and what follows from what came of it.
//!
//! The flake is written first. Then each input that was rewritten is relocked on its own, twice: the
//! first time may change only what the input leads to, and the second time must change nothing.
//! Where anything fails after the flake was written, the flake and the lock file are restored.

use crate::config::AppConfig;
use crate::flake::direct_inputs;
use crate::lock::{
    self, absent_input, content_of, direct_node, first_uncovered, graph_matter, graph_settles,
    in_scope, indirect_input, invalid_graph, is_changed, notes_on, reaches, scope_violated,
    transitive_nodes, FlakeLock,
};
use crate::migration::{
    self, can_inspect, inspect_migration, inspection_fails, plans, validated_nix_versions,
    DirectInputReport, DirectInputState, FlakeProject, MigrationApplyReport, MigrationError,
    MigrationPolicySelection, MigrationRequest, PlannedRewrite, RewritePlan,
};
use crate::text::{is_blank, join, joined, list_holds, same, texts, trim, trimmed};
use vstd::prelude::*;

verus! {

/// The flake and the lock file of a project.
#[derive(Debug)]
pub struct ProjectSources {
    pub flake_source: String,
    pub lock_source: String,
    pub lock: FlakeLock,
}

/// A lock file: its text, and what it says.
#[derive(Debug)]
pub struct LockSource {
    pub source: String,
    pub lock: FlakeLock,
}

/// A migration whose rewrites are decided: the texts before it, and the inputs relocked so far.
#[derive(Debug)]
pub struct RelockRun {
    pub plan: RewritePlan,
    pub flake_source: String,
    pub lock_source: String,
    pub nix_version: String,
    pub relocked: Vec<String>,
}

/// How far a migration has come.
#[derive(Debug)]
pub enum MigrationStage {
    Toplevel,
    Status { worktree_root: String },
    Load,
    NixVersion { plan: RewritePlan, flake_source: String, lock_source: String },
    WriteFlake { run: RelockRun },
    Before { run: RelockRun },
    FirstUpdate { run: RelockRun, before: FlakeLock },
    AfterFirst { run: RelockRun, before: FlakeLock },
    SecondUpdate { run: RelockRun, after_first: String },
    AfterSecond { run: RelockRun, after_first: String },
    Final { run: RelockRun },
    Diff { run: RelockRun, sources: ProjectSources },
    Restore { run: RelockRun, error: MigrationError },
    Finished(Result<MigrationApplyReport, MigrationError>),
}

/// What came of an action.
#[derive(Debug)]
pub enum MigrationEvent {
    Output(Result<String, MigrationError>),
    Project(Result<ProjectSources, MigrationError>),
    Lock(Result<LockSource, MigrationError>),
    Text(Result<String, MigrationError>),
    Written(Result<(), MigrationError>),
    Restored,
}

/// What is to be done next: run Git or Nix, read the project or its lock file, write the flake,
/// render the changes, put both files back, or nothing more.
#[derive(Debug)]
pub enum MigrationAction {
    Git { args: Vec<String> },
    Nix { args: Vec<String>, in_project: bool },
    ReadProject,
    WriteFlake { source: String },
    ReadLock,
    ReadLockText,
    RenderDiff { before_flake: String, after_flake: String, before_lock: String, after_lock: String },
    Restore { flake_source: String, lock_source: String },
    Finish,
}

pub struct MigrationSession {
    pub project: FlakeProject,
    pub stage: MigrationStage,
}

// ---------------------------------------------------------------------------
// States

/// The names of the inputs that are rewritten.
pub open spec fn rewritten_names(planned: Seq<PlannedRewrite>) -> Seq<Seq<char>> {
    Seq::new(planned.len(), |i: int| planned[i].input_name@)
}

/// Whether the inputs that were relocked are the first of those that are rewritten, in their order.
pub open spec fn on_course(run: RelockRun) -> bool {
    &&& run.relocked@.len() <= run.plan.planned_rewrites@.len()
    &&& texts(run.relocked@) == rewritten_names(run.plan.planned_rewrites@).take(
        run.relocked@.len() as int,
    )
    &&& run.plan.planned_rewrites@.len() > 0
    &&& validated_nix_versions().contains(run.nix_version@)
}

/// Whether an input is left to relock.
pub open spec fn relocking(run: RelockRun) -> bool {
    on_course(run) && run.relocked@.len() < run.plan.planned_rewrites@.len()
}

/// The name of the input that is relocked now.
pub open spec fn current_name(run: RelockRun) -> Seq<char> {
    run.plan.planned_rewrites@[run.relocked@.len() as int].input_name@
}

impl MigrationStage {
    pub open spec fn wf(self) -> bool {
        match self {
            MigrationStage::NixVersion { plan, .. } => plan.planned_rewrites@.len() > 0,
            MigrationStage::WriteFlake { run } => relocking(run) && run.relocked@.len() == 0,
            MigrationStage::Before { run } => relocking(run),
            MigrationStage::FirstUpdate { run, before } => relocking(run) && graph_matter(
                before,
            ) is Sound,
            MigrationStage::AfterFirst { run, before } => relocking(run) && graph_matter(
                before,
            ) is Sound,
            MigrationStage::SecondUpdate { run, .. } => relocking(run),
            MigrationStage::AfterSecond { run, .. } => relocking(run),
            MigrationStage::Final { run } => on_course(run) && run.relocked@.len()
                == run.plan.planned_rewrites@.len(),
            MigrationStage::Diff { run, .. } => on_course(run) && run.relocked@.len()
                == run.plan.planned_rewrites@.len(),
            _ => true,
        }
    }

    /// Whether `event` is what came of the action of this stage, and the lock file in it is one
    /// whose inputs can be followed to an end.
    pub open spec fn answered_by(self, event: MigrationEvent) -> bool {
        match self {
            MigrationStage::Toplevel | MigrationStage::Status { .. } | MigrationStage::NixVersion {
                ..
            } | MigrationStage::FirstUpdate { .. } | MigrationStage::SecondUpdate { .. }
            | MigrationStage::Diff { .. } => event is Output && match self {
                MigrationStage::Diff { sources, .. } => event->Output_0 is Ok ==> graph_settles(
                    sources.lock,
                ),
                _ => true,
            },
            MigrationStage::Load => event is Project && match event->Project_0 {
                Ok(sources) => can_inspect(sources.flake_source@, sources.lock),
                Err(_) => true,
            },
            MigrationStage::WriteFlake { .. } => event is Written,
            MigrationStage::Before { .. } | MigrationStage::AfterFirst { .. } => event is Lock
                && match event->Lock_0 {
                Ok(source) => graph_settles(source.lock),
                Err(_) => true,
            },
            MigrationStage::AfterSecond { .. } => event is Text,
            MigrationStage::Final { .. } => event is Project,
            MigrationStage::Restore { .. } => event is Restored,
            MigrationStage::Finished(_) => false,
        }
    }
}

// ---------------------------------------------------------------------------
// What follows

/// Whether `next` ends the migration with `error`.
pub open spec fn fails(next: MigrationStage, error: MigrationError) -> bool {
    next == MigrationStage::Finished(Err(error))
}

/// Whether `next` restores both files because of `error`.
pub open spec fn restores(next: MigrationStage, run: RelockRun, error: MigrationError) -> bool {
    next == (MigrationStage::Restore { run, error })
}

/// The names of the inputs that no policy chooses a transport for.
pub open spec fn blocked_names(reports: Seq<DirectInputReport>, n: int) -> Seq<Seq<char>>
    decreases n,
{
    if n <= 0 {
        Seq::empty()
    } else if reports[n - 1].state == DirectInputState::BlockedNoPolicy {
        blocked_names(reports, n - 1).push(reports[n - 1].input_name@)
    } else {
        blocked_names(reports, n - 1)
    }
}

fn blocked(reports: &Vec<DirectInputReport>) -> (r: Vec<String>)
    ensures
        texts(r@) == blocked_names(reports@, reports@.len() as int),
{
    let mut names: Vec<String> = Vec::new();
    let mut i: usize = 0;
    assert(texts(names@) =~= Seq::empty());
    while i < reports.len()
        invariant
            i <= reports@.len(),
            texts(names@) == blocked_names(reports@, i as int),
        decreases reports@.len() - i,
    {
        proof {
            crate::text::lemma_texts_push(names@, reports@[i as int].input_name);
        }
        if reports[i].state == DirectInputState::BlockedNoPolicy {
            names.push(reports[i].input_name.clone());
        }
        i += 1;
    }
    names
}

/// Whether a project can be planned for: its flake is read to the end, its lock file is sound, and
/// every direct input that uses shorthand is assigned a literal.
pub open spec fn plannable(sources: ProjectSources) -> bool {
    &&& direct_inputs(sources.flake_source@) is Done
    &&& graph_matter(sources.lock) is Sound
    &&& first_uncovered(
        sources.lock,
        direct_inputs(sources.flake_source@)->Done_0,
        sources.lock.input_names(sources.lock.root@).len() as int,
    ) is None
}

/// What follows once the project was read.
pub open spec fn loaded(
    config: AppConfig,
    policy: MigrationPolicySelection,
    project: FlakeProject,
    sources: ProjectSources,
    next: MigrationStage,
) -> bool {
    match next {
        MigrationStage::Finished(Err(MigrationError::BlockedDirectInputs { inputs })) => plannable(
            sources,
        ) && exists|plan: RewritePlan| #[trigger]
            plans(
                config,
                policy,
                sources.flake_source@,
                direct_inputs(sources.flake_source@)->Done_0,
                plan,
            ) && {
                let names = blocked_names(plan.direct_inputs@, plan.direct_inputs@.len() as int);
                &&& names.len() > 0
                &&& inputs@ == joined(names, ", "@)
            },
        MigrationStage::Finished(Err(error)) => inspection_fails(
            config,
            policy,
            project.lock_file@,
            sources.flake_source@,
            sources.lock,
            error,
        ),
        MigrationStage::Finished(Ok(report)) => {
            &&& plannable(sources)
            &&& exists|plan: RewritePlan| #[trigger]
                plans(
                    config,
                    policy,
                    sources.flake_source@,
                    direct_inputs(sources.flake_source@)->Done_0,
                    plan,
                ) && plan.direct_inputs == report.direct_inputs && plan.planned_rewrites
                    == report.planned_rewrites
            &&& blocked_names(
                report.direct_inputs@,
                report.direct_inputs@.len() as int,
            ).len() == 0
            &&& report.planned_rewrites@.len() == 0
            &&& report.flake_file@ == project.flake_file@
            &&& report.lock_file@ == project.lock_file@
            &&& report.nix_version is None
            &&& report.relocked_inputs@.len() == 0
            &&& notes_on(
                sources.lock,
                transitive_nodes(sources.lock, sources.lock.nodes.keys().len() as int),
                report.unresolved_transitive_shorthand@,
            )
            &&& report.diff@.len() == 0
        },
        MigrationStage::NixVersion { plan, flake_source, lock_source } => {
            &&& plannable(sources)
            &&& plans(
                config,
                policy,
                sources.flake_source@,
                direct_inputs(sources.flake_source@)->Done_0,
                plan,
            )
            &&& blocked_names(plan.direct_inputs@, plan.direct_inputs@.len() as int).len() == 0
            &&& plan.planned_rewrites@.len() > 0
            &&& flake_source == sources.flake_source
            &&& lock_source == sources.lock_source
        },
        _ => false,
    }
}

/// What follows once the lock file was read before an input is relocked.
pub open spec fn scope_checked(
    project: FlakeProject,
    run: RelockRun,
    source: LockSource,
    next: MigrationStage,
) -> bool {
    let lock = source.lock;
    let has_input = lock.inputs(lock.root@).contains_key(current_name(run));
    match next {
        MigrationStage::FirstUpdate { run: same, before } => {
            &&& graph_matter(lock) is Sound
            &&& has_input
            &&& same == run
            &&& before == lock
        },
        MigrationStage::Restore { run: same, error } => {
            &&& same == run
            &&& if graph_matter(lock) is Flaw {
                invalid_graph(error, project.lock_file@, graph_matter(lock)->Flaw_0)
            } else {
                !has_input && invalid_graph(
                    error,
                    project.lock_file@,
                    absent_input(current_name(run)),
                )
            }
        },
        _ => false,
    }
}

/// What follows once the lock file was read after an input was relocked for the first time.
pub open spec fn relock_checked(
    project: FlakeProject,
    run: RelockRun,
    before: FlakeLock,
    source: LockSource,
    next: MigrationStage,
) -> bool {
    let after = source.lock;
    let name = current_name(run);
    match next {
        MigrationStage::SecondUpdate { run: same, after_first } => {
            &&& graph_matter(after) is Sound
            &&& direct_node(before, name) is Some
            &&& in_scope(before, after, name)
            &&& same == run
            &&& after_first == source.source
        },
        MigrationStage::Restore { run: same, error } => {
            &&& same == run
            &&& if graph_matter(after) is Flaw {
                invalid_graph(error, project.lock_file@, graph_matter(after)->Flaw_0)
            } else if !before.inputs(before.root@).contains_key(name) {
                invalid_graph(error, project.lock_file@, absent_input(name))
            } else if direct_node(before, name) is None {
                invalid_graph(error, project.lock_file@, indirect_input(name))
            } else {
                !in_scope(before, after, name) && scope_violated(error, before, after, name)
            }
        },
        _ => false,
    }
}

/// The run once one more input was relocked.
pub open spec fn relocked_one_more(run: RelockRun, next: RelockRun) -> bool {
    &&& next == (RelockRun { relocked: next.relocked, ..run })
    &&& texts(next.relocked@) == texts(run.relocked@).push(current_name(run))
}

/// What follows once the lock file was read after an input was relocked for the second time.
pub open spec fn repeated(
    run: RelockRun,
    after_first: String,
    after_second: String,
    next: MigrationStage,
) -> bool {
    match next {
        MigrationStage::Before { run: more } => {
            &&& after_first@ == after_second@
            &&& relocked_one_more(run, more)
            &&& more.relocked@.len() < run.plan.planned_rewrites@.len()
        },
        MigrationStage::Final { run: more } => {
            &&& after_first@ == after_second@
            &&& relocked_one_more(run, more)
            &&& more.relocked@.len() == run.plan.planned_rewrites@.len()
        },
        MigrationStage::Restore { run: same, error } => {
            &&& after_first@ != after_second@
            &&& same == run
            &&& error is RelockNotIdempotent
            &&& error->RelockNotIdempotent_input_name@ == current_name(run)
        },
        _ => false,
    }
}

/// What follows once the changes were rendered.
pub open spec fn reported(
    project: FlakeProject,
    run: RelockRun,
    sources: ProjectSources,
    diff: String,
    next: MigrationStage,
) -> bool {
    let lock = sources.lock;
    match next {
        MigrationStage::Finished(Ok(report)) => {
            &&& graph_matter(lock) is Sound
            &&& report.flake_file@ == project.flake_file@
            &&& report.lock_file@ == project.lock_file@
            &&& report.nix_version == Some(run.nix_version)
            &&& report.direct_inputs == run.plan.direct_inputs
            &&& report.planned_rewrites == run.plan.planned_rewrites
            &&& report.relocked_inputs == run.relocked
            &&& notes_on(
                lock,
                transitive_nodes(lock, lock.nodes.keys().len() as int),
                report.unresolved_transitive_shorthand@,
            )
            &&& report.diff == diff
        },
        MigrationStage::Restore { run: same, error } => {
            &&& graph_matter(lock) is Flaw
            &&& same == run
            &&& invalid_graph(error, project.lock_file@, graph_matter(lock)->Flaw_0)
        },
        _ => false,
    }
}

/// What follows from what came of the action of a stage.
pub open spec fn follows(
    config: AppConfig,
    policy: MigrationPolicySelection,
    project: FlakeProject,
    stage: MigrationStage,
    event: MigrationEvent,
    next: MigrationStage,
) -> bool {
    match stage {
        MigrationStage::Toplevel => match event->Output_0 {
            Err(error) => fails(next, error),
            Ok(text) => next is Status && next->Status_worktree_root@ == trimmed(text@),
        },
        MigrationStage::Status { worktree_root } => match event->Output_0 {
            Err(error) => fails(next, error),
            Ok(text) => if trimmed(text@).len() > 0 {
                fails(next, (MigrationError::DirtyWorktree { worktree_root }))
            } else {
                next is Load
            },
        },
        MigrationStage::Load => match event->Project_0 {
            Err(error) => fails(next, error),
            Ok(sources) => loaded(config, policy, project, sources, next),
        },
        MigrationStage::NixVersion { plan, flake_source, lock_source } => match event->Output_0 {
            Err(error) => fails(next, error),
            Ok(text) => if validated_nix_versions().contains(trimmed(text@)) {
                &&& next is WriteFlake
                &&& next->WriteFlake_run.plan == plan
                &&& next->WriteFlake_run.flake_source == flake_source
                &&& next->WriteFlake_run.lock_source == lock_source
                &&& next->WriteFlake_run.nix_version@ == trimmed(text@)
                &&& next->WriteFlake_run.relocked@.len() == 0
            } else {
                &&& next is Finished
                &&& next->Finished_0 is Err
                &&& next->Finished_0->Err_0 is UnsupportedNixVersion
                &&& next->Finished_0->Err_0->UnsupportedNixVersion_version@ == trimmed(text@)
            },
        },
        MigrationStage::WriteFlake { run } => match event->Written_0 {
            Err(error) => fails(next, error),
            Ok(_) => next == (MigrationStage::Before { run }),
        },
        MigrationStage::Before { run } => match event->Lock_0 {
            Err(error) => restores(next, run, error),
            Ok(source) => scope_checked(project, run, source, next),
        },
        MigrationStage::FirstUpdate { run, before } => match event->Output_0 {
            Err(error) => restores(next, run, error),
            Ok(_) => next == (MigrationStage::AfterFirst { run, before }),
        },
        MigrationStage::AfterFirst { run, before } => match event->Lock_0 {
            Err(error) => restores(next, run, error),
            Ok(source) => relock_checked(project, run, before, source, next),
        },
        MigrationStage::SecondUpdate { run, after_first } => match event->Output_0 {
            Err(error) => restores(next, run, error),
            Ok(_) => next == (MigrationStage::AfterSecond { run, after_first }),
        },
        MigrationStage::AfterSecond { run, after_first } => match event->Text_0 {
            Err(error) => restores(next, run, error),
            Ok(after_second) => repeated(run, after_first, after_second, next),
        },
        MigrationStage::Final { run } => match event->Project_0 {
            Err(error) => restores(next, run, error),
            Ok(sources) => next == (MigrationStage::Diff { run, sources }),
        },
        MigrationStage::Diff { run, sources } => match event->Output_0 {
            Err(error) => restores(next, run, error),
            Ok(diff) => reported(project, run, sources, diff, next),
        },
        MigrationStage::Restore { run, error } => fails(next, error),
        MigrationStage::Finished(_) => false,
    }
}

/// What a stage asks to be done.
pub open spec fn asks(project: FlakeProject, stage: MigrationStage, action: MigrationAction) -> bool {
    match stage {
        MigrationStage::Toplevel => action is Git && texts(action->Git_args@) == seq![
            "-C"@,
            project.flake_dir@,
            "rev-parse"@,
            "--show-toplevel"@,
        ],
        MigrationStage::Status { worktree_root } => action is Git && texts(action->Git_args@)
            == seq!["-C"@, worktree_root@, "status"@, "--porcelain"@],
        MigrationStage::Load | MigrationStage::Final { .. } => action is ReadProject,
        MigrationStage::NixVersion { .. } => action is Nix && !action->in_project && texts(
            action->Nix_args@,
        ) == seq!["--version"@],
        MigrationStage::WriteFlake { run } => action is WriteFlake && action->source@
            == run.plan.rewritten_source@,
        MigrationStage::Before { .. } | MigrationStage::AfterFirst { .. } => action is ReadLock,
        MigrationStage::FirstUpdate { run, .. } | MigrationStage::SecondUpdate { run, .. } => action
            is Nix && action->in_project && texts(action->Nix_args@) == seq![
            "flake"@,
            "update"@,
            current_name(run),
        ],
        MigrationStage::AfterSecond { .. } => action is ReadLockText,
        MigrationStage::Diff { run, sources } => {
            &&& action is RenderDiff
            &&& action->before_flake@ == run.flake_source@
            &&& action->after_flake@ == sources.flake_source@
            &&& action->before_lock@ == run.lock_source@
            &&& action->after_lock@ == sources.lock_source@
        },
        MigrationStage::Restore { run, .. } => {
            &&& action is Restore
            &&& action->Restore_flake_source@ == run.flake_source@
            &&& action->Restore_lock_source@ == run.lock_source@
        },
        MigrationStage::Finished(_) => action is Finish,
    }
}

/// The start of a migration: the worktree is looked at first where a dirty one is refused.
pub fn migrate_flake_inputs(
    config: &AppConfig,
    request: &MigrationRequest,
    project: FlakeProject,
) -> (r: MigrationSession)
    ensures
        r.project == project,
        r.stage.wf(),
        r.stage == (if config.migration.refuse_dirty_worktree && !request.allow_dirty {
            MigrationStage::Toplevel
        } else {
            MigrationStage::Load
        }),
{
    let stage = if config.migration.refuse_dirty_worktree && !request.allow_dirty {
        MigrationStage::Toplevel
    } else {
        MigrationStage::Load
    };
    MigrationSession { project, stage }
}

fn three(a: &str, b: &str, c: &str) -> (r: Vec<String>)
    ensures
        texts(r@) == seq![a@, b@, c@],
{
    let list = vec![a.to_owned(), b.to_owned(), c.to_owned()];
    assert(texts(list@) =~= seq![a@, b@, c@]);
    list
}

fn four(a: &str, b: &str, c: &str, d: &str) -> (r: Vec<String>)
    ensures
        texts(r@) == seq![a@, b@, c@, d@],
{
    let list = vec![a.to_owned(), b.to_owned(), c.to_owned(), d.to_owned()];
    assert(texts(list@) =~= seq![a@, b@, c@, d@]);
    list
}

impl MigrationSession {
    /// What is to be done next.
    pub fn action(&self) -> (r: MigrationAction)
        requires
            self.stage.wf(),
        ensures
            asks(self.project, self.stage, r),
    {
        match &self.stage {
            MigrationStage::Toplevel => MigrationAction::Git {
                args: four("-C", &self.project.flake_dir, "rev-parse", "--show-toplevel"),
            },
            MigrationStage::Status { worktree_root } => MigrationAction::Git {
                args: four("-C", worktree_root, "status", "--porcelain"),
            },
            MigrationStage::Load => MigrationAction::ReadProject,
            MigrationStage::Final { .. } => MigrationAction::ReadProject,
            MigrationStage::NixVersion { .. } => {
                let args = vec!["--version".to_owned()];
                assert(texts(args@) =~= seq!["--version"@]);
                MigrationAction::Nix { args, in_project: false }
            },
            MigrationStage::WriteFlake { run } => MigrationAction::WriteFlake {
                source: run.plan.rewritten_source.clone(),
            },
            MigrationStage::Before { .. } => MigrationAction::ReadLock,
            MigrationStage::AfterFirst { .. } => MigrationAction::ReadLock,
            MigrationStage::FirstUpdate { run, .. } => MigrationAction::Nix {
                args: three(
                    "flake",
                    "update",
                    &run.plan.planned_rewrites[run.relocked.len()].input_name,
                ),
                in_project: true,
            },
            MigrationStage::SecondUpdate { run, .. } => MigrationAction::Nix {
                args: three(
                    "flake",
                    "update",
                    &run.plan.planned_rewrites[run.relocked.len()].input_name,
                ),
                in_project: true,
            },
            MigrationStage::AfterSecond { .. } => MigrationAction::ReadLockText,
            MigrationStage::Diff { run, sources } => MigrationAction::RenderDiff {
                before_flake: run.flake_source.clone(),
                after_flake: sources.flake_source.clone(),
                before_lock: run.lock_source.clone(),
                after_lock: sources.lock_source.clone(),
            },
            MigrationStage::Restore { run, .. } => MigrationAction::Restore {
                flake_source: run.flake_source.clone(),
                lock_source: run.lock_source.clone(),
            },
            MigrationStage::Finished(_) => MigrationAction::Finish,
        }
    }
}

fn after_load(
    config: &AppConfig,
    request: &MigrationRequest,
    project: &FlakeProject,
    sources: ProjectSources,
) -> (r: MigrationStage)
    requires
        can_inspect(sources.flake_source@, sources.lock),
    ensures
        loaded(*config, request.policy, *project, sources, r),
        r.wf(),
{
    let inspection = match inspect_migration(
        config,
        request,
        &project.lock_file,
        &sources.flake_source,
        &sources.lock,
    ) {
        Ok(inspection) => inspection,
        Err(error) => {
            return MigrationStage::Finished(Err(error));
        },
    };
    let plan = inspection.plan;
    assert(plans(
        *config,
        request.policy,
        sources.flake_source@,
        direct_inputs(sources.flake_source@)->Done_0,
        plan,
    ));
    let names = blocked(&plan.direct_inputs);
    assert(texts(names@).len() == names@.len());
    if names.len() > 0 {
        return MigrationStage::Finished(
            Err(MigrationError::BlockedDirectInputs { inputs: join(&names, ", ") }),
        );
    }
    if plan.planned_rewrites.len() == 0 {
        return MigrationStage::Finished(
            Ok(
                MigrationApplyReport {
                    flake_file: project.flake_file.clone(),
                    lock_file: project.lock_file.clone(),
                    nix_version: None,
                    direct_inputs: plan.direct_inputs,
                    planned_rewrites: plan.planned_rewrites,
                    relocked_inputs: Vec::new(),
                    unresolved_transitive_shorthand: inspection.unresolved_transitive_shorthand,
                    diff: String::new(),
                },
            ),
        );
    }
    MigrationStage::NixVersion {
        plan,
        flake_source: sources.flake_source,
        lock_source: sources.lock_source,
    }
}

fn compare_relocks(run: RelockRun, after_first: String, after_second: String) -> (r: MigrationStage)
    requires
        relocking(run),
    ensures
        repeated(run, after_first, after_second, r),
        r.wf(),
{
    let name = run.plan.planned_rewrites[run.relocked.len()].input_name.clone();
    if !same(&after_first, &after_second) {
        return MigrationStage::Restore {
            run,
            error: MigrationError::RelockNotIdempotent { input_name: name },
        };
    }
    let ghost before = run;
    let mut run = run;
    proof {
        crate::text::lemma_texts_push(run.relocked@, name);
    }
    run.relocked.push(name);
    proof {
        let all = rewritten_names(run.plan.planned_rewrites@);
        let n = run.relocked@.len() as int;
        assert(all.take(n) =~= all.take(n - 1).push(all[n - 1]));
    }
    if run.relocked.len() < run.plan.planned_rewrites.len() {
        MigrationStage::Before { run }
    } else {
        MigrationStage::Final { run }
    }
}

impl MigrationSession {
    /// What follows from what came of the action.
    pub fn advance(self, config: &AppConfig, request: &MigrationRequest, event: MigrationEvent) -> (r:
        Self)
        requires
            self.stage.wf(),
            self.stage.answered_by(event),
        ensures
            r.project == self.project,
            r.stage.wf(),
            follows(*config, request.policy, self.project, self.stage, event, r.stage),
    {
        let project = self.project;
        let stage = match (self.stage, event) {
            (MigrationStage::Toplevel, MigrationEvent::Output(output)) => match output {
                Err(error) => MigrationStage::Finished(Err(error)),
                Ok(text) => MigrationStage::Status { worktree_root: trim(&text) },
            },
            (MigrationStage::Status { worktree_root }, MigrationEvent::Output(output)) => match output {
                Err(error) => MigrationStage::Finished(Err(error)),
                Ok(text) => if is_blank(&text) {
                    MigrationStage::Load
                } else {
                    MigrationStage::Finished(Err(MigrationError::DirtyWorktree { worktree_root }))
                },
            },
            (MigrationStage::Load, MigrationEvent::Project(sources)) => match sources {
                Err(error) => MigrationStage::Finished(Err(error)),
                Ok(sources) => after_load(config, request, &project, sources),
            },
            (
                MigrationStage::NixVersion { plan, flake_source, lock_source },
                MigrationEvent::Output(output),
            ) => match output {
                Err(error) => MigrationStage::Finished(Err(error)),
                Ok(text) => {
                    let nix_version = trim(&text);
                    let allowed = migration::validated_targeted_relock_nix_versions();
                    let known = list_holds(&allowed, &nix_version);
                    if known {
                        let relocked: Vec<String> = Vec::new();
                        assert(texts(relocked@) =~= rewritten_names(
                            plan.planned_rewrites@,
                        ).take(0));
                        MigrationStage::WriteFlake {
                            run: RelockRun {
                                plan,
                                flake_source,
                                lock_source,
                                nix_version,
                                relocked,
                            },
                        }
                    } else {
                        MigrationStage::Finished(
                            Err(MigrationError::UnsupportedNixVersion { version: nix_version }),
                        )
                    }
                },
            },
            (MigrationStage::WriteFlake { run }, MigrationEvent::Written(written)) => match written {
                Err(error) => MigrationStage::Finished(Err(error)),
                Ok(_) => MigrationStage::Before { run },
            },
            (MigrationStage::Before { run }, MigrationEvent::Lock(source)) => match source {
                Err(error) => MigrationStage::Restore { run, error },
                Ok(source) => {
                    let name = &run.plan.planned_rewrites[run.relocked.len()].input_name;
                    match lock::validate_targeted_relock_scope(
                        &project.lock_file,
                        &source.lock,
                        name,
                    ) {
                        Err(error) => MigrationStage::Restore { run, error },
                        Ok(_) => MigrationStage::FirstUpdate { run, before: source.lock },
                    }
                },
            },
            (MigrationStage::FirstUpdate { run, before }, MigrationEvent::Output(output)) => match output {
                Err(error) => MigrationStage::Restore { run, error },
                Ok(_) => MigrationStage::AfterFirst { run, before },
            },
            (MigrationStage::AfterFirst { run, before }, MigrationEvent::Lock(source)) => match source {
                Err(error) => MigrationStage::Restore { run, error },
                Ok(source) => {
                    let name = &run.plan.planned_rewrites[run.relocked.len()].input_name;
                    match lock::validate_targeted_relock_result(
                        &project.lock_file,
                        name,
                        &before,
                        &source.lock,
                    ) {
                        Err(error) => MigrationStage::Restore { run, error },
                        Ok(_) => MigrationStage::SecondUpdate { run, after_first: source.source },
                    }
                },
            },
            (MigrationStage::SecondUpdate { run, after_first }, MigrationEvent::Output(output)) => match output {
                Err(error) => MigrationStage::Restore { run, error },
                Ok(_) => MigrationStage::AfterSecond { run, after_first },
            },
            (MigrationStage::AfterSecond { run, after_first }, MigrationEvent::Text(text)) => match text {
                Err(error) => MigrationStage::Restore { run, error },
                Ok(text) => compare_relocks(run, after_first, text),
            },
            (MigrationStage::Final { run }, MigrationEvent::Project(sources)) => match sources {
                Err(error) => MigrationStage::Restore { run, error },
                Ok(sources) => MigrationStage::Diff { run, sources },
            },
            (MigrationStage::Diff { run, sources }, MigrationEvent::Output(output)) => match output {
                Err(error) => MigrationStage::Restore { run, error },
                Ok(diff) => match lock::collect_transitive_shorthand(
                    &project.lock_file,
                    &sources.lock,
                ) {
                    Err(error) => MigrationStage::Restore { run, error },
                    Ok(unresolved_transitive_shorthand) => MigrationStage::Finished(
                        Ok(
                            MigrationApplyReport {
                                flake_file: project.flake_file.clone(),
                                lock_file: project.lock_file.clone(),
                                nix_version: Some(run.nix_version),
                                direct_inputs: run.plan.direct_inputs,
                                planned_rewrites: run.plan.planned_rewrites,
                                relocked_inputs: run.relocked,
                                unresolved_transitive_shorthand,
                                diff,
                            },
                        ),
                    ),
                },
            },
            (MigrationStage::Restore { run, error }, MigrationEvent::Restored) => MigrationStage::Finished(
                Err(error),
            ),
            (stage, _) => {
                assert(false);
                stage
            },
        };
        MigrationSession { project, stage }
    }
}

// ---------------------------------------------------------------------------
// Laws

/// The run of a stage once the flake was written.
pub open spec fn written_run(stage: MigrationStage) -> Option<RelockRun> {
    match stage {
        MigrationStage::Before { run } => Some(run),
        MigrationStage::FirstUpdate { run, .. } => Some(run),
        MigrationStage::AfterFirst { run, .. } => Some(run),
        MigrationStage::SecondUpdate { run, .. } => Some(run),
        MigrationStage::AfterSecond { run, .. } => Some(run),
        MigrationStage::Final { run } => Some(run),
        MigrationStage::Diff { run, .. } => Some(run),
        MigrationStage::Restore { run, .. } => Some(run),
        _ => None,
    }
}

/// Once the flake was written, a migration that fails restores the flake and the lock file as they
/// were, and only then ends with the error; nothing else ends it but its success.
pub proof fn law_failure_restores_both_files(
    config: AppConfig,
    policy: MigrationPolicySelection,
    project: FlakeProject,
    stage: MigrationStage,
    event: MigrationEvent,
    next: MigrationStage,
)
    requires
        written_run(stage) is Some,
        stage.wf(),
        stage.answered_by(event),
        follows(config, policy, project, stage, event, next),
    ensures
        match next {
            MigrationStage::Finished(Ok(_)) => stage is Diff,
            MigrationStage::Finished(Err(error)) => stage is Restore && stage->Restore_error
                == error,
            _ => {
                &&& written_run(next) is Some
                &&& written_run(next)->0.flake_source@ == written_run(stage)->0.flake_source@
                &&& written_run(next)->0.lock_source@ == written_run(stage)->0.lock_source@
            },
        },
        forall|action: MigrationAction|
            stage is Restore && #[trigger] asks(project, stage, action) ==> action is Restore
                && action->Restore_flake_source@ == written_run(stage)->0.flake_source@
                && action->Restore_lock_source@ == written_run(stage)->0.lock_source@,
{
}

/// A migration that wrote the flake succeeds only when every input that was rewritten was relocked,
/// in their order, with a Nix version that was validated.
pub proof fn law_success_relocks_every_rewrite(
    config: AppConfig,
    policy: MigrationPolicySelection,
    project: FlakeProject,
    stage: MigrationStage,
    event: MigrationEvent,
    report: MigrationApplyReport,
)
    requires
        written_run(stage) is Some,
        stage.wf(),
        stage.answered_by(event),
        follows(
            config,
            policy,
            project,
            stage,
            event,
            MigrationStage::Finished(Ok(report)),
        ),
    ensures
        texts(report.relocked_inputs@) == rewritten_names(report.planned_rewrites@),
        report.nix_version is Some,
        validated_nix_versions().contains(report.nix_version->0@),
{
    let run = written_run(stage)->0;
    let all = rewritten_names(run.plan.planned_rewrites@);
    assert(all.take(all.len() as int) =~= all);
}

/// A migration that refuses a dirty worktree goes on exactly where Git's short status of the whole
/// worktree is empty; otherwise nothing is read or written.
pub proof fn law_dirty_worktrees_are_refused(
    config: AppConfig,
    policy: MigrationPolicySelection,
    project: FlakeProject,
    worktree_root: String,
    text: String,
    next: MigrationStage,
    action: MigrationAction,
)
    requires
        asks(project, MigrationStage::Status { worktree_root }, action),
        follows(
            config,
            policy,
            project,
            MigrationStage::Status { worktree_root },
            MigrationEvent::Output(Ok(text)),
            next,
        ),
    ensures
        action is Git,
        texts(action->Git_args@).take(2) == seq!["-C"@, worktree_root@],
        texts(action->Git_args@).contains("status"@),
        texts(action->Git_args@).contains("--porcelain"@),
        next is Load <==> trimmed(text@).len() == 0,
        trimmed(text@).len() > 0 ==> next is Finished && next->Finished_0 is Err
            && next->Finished_0->Err_0 is DirtyWorktree,
{
    let args = texts(action->Git_args@);
    assert(args[2] == "status"@);
    assert(args[3] == "--porcelain"@);
    assert(args.take(2) =~= seq!["-C"@, worktree_root@]);
}

/// The flake is written only under a version of Nix that relocking was validated with, and exactly
/// as planned; under any other nothing is written.
pub proof fn law_unvalidated_versions_write_nothing(
    config: AppConfig,
    policy: MigrationPolicySelection,
    project: FlakeProject,
    stage: MigrationStage,
    text: String,
    next: MigrationStage,
)
    requires
        stage is NixVersion,
        follows(config, policy, project, stage, MigrationEvent::Output(Ok(text)), next),
    ensures
        next is WriteFlake <==> validated_nix_versions().contains(trimmed(text@)),
        !(next is WriteFlake) ==> next is Finished && next->Finished_0 is Err,
        next is WriteFlake ==> next->WriteFlake_run.relocked@.len() == 0 && forall|
            action: MigrationAction,
        | #[trigger]
            asks(project, next, action) ==> action is WriteFlake && action->source@
                == stage->NixVersion_plan.rewritten_source@,
        next is WriteFlake ==> next->WriteFlake_run.flake_source == stage->NixVersion_flake_source
            && next->WriteFlake_run.lock_source == stage->NixVersion_lock_source,
{
}

/// Each input is relocked by itself, under its own name, and twice; it counts as relocked exactly
/// where the second time changes nothing, and the next one follows.
pub proof fn law_relocks_are_repeated(
    config: AppConfig,
    policy: MigrationPolicySelection,
    project: FlakeProject,
    run: RelockRun,
    before: FlakeLock,
    after_first: String,
    after_second: String,
    next: MigrationStage,
)
    requires
        relocking(run),
        follows(
            config,
            policy,
            project,
            MigrationStage::AfterSecond { run, after_first },
            MigrationEvent::Text(Ok(after_second)),
            next,
        ),
    ensures
        forall|action: MigrationAction| #[trigger]
            asks(project, MigrationStage::FirstUpdate { run, before }, action) ==> action is Nix
                && texts(action->Nix_args@) == seq![
                "flake"@,
                "update"@,
                run.plan.planned_rewrites@[run.relocked@.len() as int].input_name@,
            ],
        forall|action: MigrationAction| #[trigger]
            asks(project, MigrationStage::SecondUpdate { run, after_first }, action) ==> action
                is Nix && texts(action->Nix_args@) == seq![
                "flake"@,
                "update"@,
                run.plan.planned_rewrites@[run.relocked@.len() as int].input_name@,
            ],
        after_first@ != after_second@ ==> next is Restore && next->Restore_error
            is RelockNotIdempotent,
        after_first@ == after_second@ ==> next is Before || next is Final,
        next is Before ==> next->Before_run.relocked@.len() == run.relocked@.len() + 1
            && next->Before_run.relocked@.len() < run.plan.planned_rewrites@.len(),
        next is Final ==> next->Final_run.relocked@.len() == run.plan.planned_rewrites@.len(),
{
    assert(texts(run.relocked@).len() == run.relocked@.len());
    if next is Before {
        assert(texts(next->Before_run.relocked@).len() == next->Before_run.relocked@.len());
    }
}

/// A relock is kept only where the lock file stays sound and nothing changed but what the input
/// leads to.
pub proof fn law_relocks_stay_in_scope(
    config: AppConfig,
    policy: MigrationPolicySelection,
    project: FlakeProject,
    run: RelockRun,
    before: FlakeLock,
    source: LockSource,
    next: MigrationStage,
)
    requires
        follows(
            config,
            policy,
            project,
            MigrationStage::AfterFirst { run, before },
            MigrationEvent::Lock(Ok(source)),
            next,
        ),
    ensures
        next is SecondUpdate || next is Restore,
        next is SecondUpdate ==> graph_matter(source.lock) is Sound && forall|id: Seq<char>|
            #[trigger] content_of(before, id) != content_of(source.lock, id) ==> reaches(
                before,
                direct_node(before, current_name(run))->0,
                id,
            ),
        next is Restore && next->Restore_error is RelockScopeViolation ==> !in_scope(
            before,
            source.lock,
            current_name(run),
        ),
{
    if next is SecondUpdate {
        assert forall|id: Seq<char>| #[trigger]
            content_of(before, id) != content_of(source.lock, id) implies reaches(
            before,
            direct_node(before, current_name(run))->0,
            id,
        ) by {
            assert(is_changed(before, source.lock, id));
        }
    }
}

/// A migration writes only where it has something to rewrite and no input is blocked; one that has
/// nothing to rewrite ends at once, and one with a blocked input ends with its names.
pub proof fn law_migrations_write_only_with_cause(
    config: AppConfig,
    policy: MigrationPolicySelection,
    project: FlakeProject,
    sources: ProjectSources,
    next: MigrationStage,
)
    requires
        loaded(config, policy, project, sources, next),
    ensures
        next is NixVersion || next is Finished,
        next is NixVersion ==> next->NixVersion_plan.planned_rewrites@.len() > 0 && forall|i: int|
            0 <= i < next->NixVersion_plan.direct_inputs@.len() ==> (
            #[trigger] next->NixVersion_plan.direct_inputs@[i]).state
                != DirectInputState::BlockedNoPolicy,
        next matches MigrationStage::Finished(Ok(report)) ==> report.planned_rewrites@.len() == 0
            && report.relocked_inputs@.len() == 0 && report.nix_version is None,
{
    if next is NixVersion {
        let reports = next->NixVersion_plan.direct_inputs@;
        law_blocked_inputs(reports, reports.len() as int);
    }
}

/// The blocked inputs are named exactly where there are some.
pub proof fn law_blocked_inputs(reports: Seq<DirectInputReport>, n: int)
    requires
        0 <= n <= reports.len(),
    ensures
        blocked_names(reports, n).len() == 0 <==> forall|i: int|
            0 <= i < n ==> (#[trigger] reports[i]).state != DirectInputState::BlockedNoPolicy,
        forall|i: int|
            0 <= i < n && (#[trigger] reports[i]).state == DirectInputState::BlockedNoPolicy
                ==> blocked_names(reports, n).contains(reports[i].input_name@),
    decreases n,
{
    let all = blocked_names(reports, n);
    if n > 0 {
        law_blocked_inputs(reports, n - 1);
        let before = blocked_names(reports, n - 1);
        assert forall|i: int|
            0 <= i < n && (#[trigger] reports[i]).state
                == DirectInputState::BlockedNoPolicy implies all.contains(reports[i].input_name@) by {
            if i < n - 1 {
                let k = choose|k: int| 0 <= k < before.len() && before[k] == reports[i].input_name@;
                assert(all[k] == reports[i].input_name@);
            } else {
                assert(all[all.len() - 1] == reports[i].input_name@);
            }
        }
    }
}

/// A migration finds the worktree before it looks at its state. Once it has written the flake it
/// reads the lock file, relocks an input, reads the lock file again, and where no more changed
/// than may, relocks the input once more. At the end it reads both files and shows what changed. An
/// error ends it at once while nothing is written, and afterwards both files are restored first.
pub proof fn law_course_of_a_migration(
    config: AppConfig,
    policy: MigrationPolicySelection,
    project: FlakeProject,
    stage: MigrationStage,
    event: MigrationEvent,
    next: MigrationStage,
)
    requires
        stage.wf(),
        stage.answered_by(event),
        follows(config, policy, project, stage, event, next),
    ensures
        stage is Toplevel && event->Output_0 is Ok ==> next is Status
            && next->Status_worktree_root@ == trimmed(event->Output_0->Ok_0@),
        (stage is Toplevel || stage is Status || stage is NixVersion) && event->Output_0 is Err
            ==> next == MigrationStage::Finished(Err(event->Output_0->Err_0)),
        stage is WriteFlake && event->Written_0 is Ok ==> next is Before && next->Before_run
            == stage->WriteFlake_run,
        stage is WriteFlake && event->Written_0 is Err ==> next == MigrationStage::Finished(
            Err(event->Written_0->Err_0),
        ),
        stage is FirstUpdate && event->Output_0 is Ok ==> next is AfterFirst
            && next->AfterFirst_run == stage->FirstUpdate_run && next->AfterFirst_before
            == stage->FirstUpdate_before,
        stage is Before && event->Lock_0 is Ok ==> {
            let lock = event->Lock_0->Ok_0.lock;
            next is FirstUpdate <==> graph_matter(lock) is Sound && lock.inputs(
                lock.root@,
            ).contains_key(current_name(stage->Before_run))
        },
        stage is AfterFirst && event->Lock_0 is Ok ==> {
            let before = stage->AfterFirst_before;
            let after = event->Lock_0->Ok_0.lock;
            let name = current_name(stage->AfterFirst_run);
            let fits = graph_matter(after) is Sound && direct_node(before, name) is Some
                && in_scope(before, after, name);
            &&& next is SecondUpdate ==> fits
            &&& fits && before.inputs(before.root@).contains_key(name) ==> next is SecondUpdate
        },
        stage is SecondUpdate && event->Output_0 is Ok ==> next is AfterSecond
            && next->AfterSecond_after_first == stage->SecondUpdate_after_first,
        stage is Final && event->Project_0 is Ok ==> next is Diff && next->Diff_sources
            == event->Project_0->Ok_0,
        (stage is FirstUpdate || stage is SecondUpdate || stage is Diff) && event->Output_0 is Err
            ==> next is Restore && next->Restore_error == event->Output_0->Err_0,
        (stage is Before || stage is AfterFirst) && event->Lock_0 is Err ==> next is Restore
            && next->Restore_error == event->Lock_0->Err_0,
        stage is Restore ==> next == MigrationStage::Finished(Err(stage->Restore_error)),
{
}

} // verus!
