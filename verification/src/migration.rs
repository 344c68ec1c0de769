//! Moving the direct inputs of a flake from shorthand to Git transports.

use crate::config::{AppConfig, MigrationTransport};
use crate::flake::{
    all_assigned, ascii, law_ascii_texts_assign_ascii_values, law_replaced_values_are_read_back,
    byte_offset, direct_inputs, in_bytes, law_spans_fit, lemma_encode_sum, lemma_offsets_grow,
    lemma_plain, new_value, parse_direct_input_assignments, plain, quote_string, quoted, revalued,
    scan, spans_fit, spliced, unsupported, written, Assigned, DirectInputAssignment, Scan, Span,
};
use crate::git::{debug_list, debug_list_text, render_status, status_text};
use crate::lock::{
    self, first_uncovered, graph_matter, graph_settles, invalid_graph, notes_on, transitive_nodes,
    FlakeLock,
};
pub use crate::lock::TransitiveShorthandNode;
pub use crate::relock::migrate_flake_inputs;
use crate::order::{self, sorted_by, Ordered};
use crate::path::{self, joined_path};
use crate::shorthand::{
    git_url, is_git_url, is_shorthand, law_plain_shorthand_gives_plain_url,
    law_rewritten_url_uses_git_transport, matches_git_transport, matches_shorthand_prefix,
    parse_shorthand_url, render_git_url, shorthand,
};
use crate::table::TextMap;
use crate::text::{
    concat2, concat3, concat4, concat5, copy_list, halves, holds, is_blank, join, lowered,
    same, split_once, text_of, texts, to_lower, trim, trimmed,
};
use vstd::prelude::*;
use vstd::utf8::{
    decode_utf8, encode_utf8, encode_utf8_decode_utf8, encode_utf8_first_scalar,
    encode_utf8_valid_utf8, is_char_boundary, pop_first_scalar,
};

verus! {

#[derive(Debug, Clone, Copy, PartialEq, Eq, PartialOrd, Ord, Structural)]
pub enum MigrationRepoClass {
    Public,
    Private,
}

/// The transport of each class of repositories.
#[derive(Debug, Clone, Copy, PartialEq, Eq)]
pub struct ClassTargets {
    pub public: Option<MigrationTransport>,
    pub private: Option<MigrationTransport>,
}

impl ClassTargets {
    pub open spec fn of(self, class: MigrationRepoClass) -> Option<MigrationTransport> {
        match class {
            MigrationRepoClass::Public => self.public,
            MigrationRepoClass::Private => self.private,
        }
    }

    /// These targets, with `target` for `class`.
    pub open spec fn having(self, class: MigrationRepoClass, target: MigrationTransport) -> Self {
        match class {
            MigrationRepoClass::Public => ClassTargets { public: Some(target), ..self },
            MigrationRepoClass::Private => ClassTargets { private: Some(target), ..self },
        }
    }

    /// The transport of a class.
    pub fn get(&self, class: &MigrationRepoClass) -> (r: Option<&MigrationTransport>)
        ensures
            r is Some <==> self.of(*class) is Some,
            r matches Some(target) ==> self.of(*class) == Some(*target),
    {
        match class {
            MigrationRepoClass::Public => self.public.as_ref(),
            MigrationRepoClass::Private => self.private.as_ref(),
        }
    }

    fn with(self, class: MigrationRepoClass, target: MigrationTransport) -> (r: Self)
        ensures
            r == self.having(class, target),
    {
        match class {
            MigrationRepoClass::Public => ClassTargets {
                public: Some(target),
                private: self.private,
            },
            MigrationRepoClass::Private => ClassTargets {
                public: self.public,
                private: Some(target),
            },
        }
    }
}

/// Which transport to use for which input.
#[derive(Debug)]
pub struct MigrationPolicySelection {
    pub input_targets: TextMap<MigrationTransport>,
    pub host_targets: TextMap<MigrationTransport>,
    pub class_targets: ClassTargets,
    pub input_classes: TextMap<MigrationRepoClass>,
}

impl Default for MigrationPolicySelection {
    /// The policy that selects no transport.
    fn default() -> (r: Self)
        ensures
            r.input_targets.ordered(),
            r.input_targets@ == Map::<Seq<char>, MigrationTransport>::empty(),
            r.host_targets.ordered(),
            r.host_targets@ == Map::<Seq<char>, MigrationTransport>::empty(),
            r.class_targets.public is None,
            r.class_targets.private is None,
            r.input_classes.ordered(),
            r.input_classes@ == Map::<Seq<char>, MigrationRepoClass>::empty(),
    {
        MigrationPolicySelection {
            input_targets: TextMap::new(),
            host_targets: TextMap::new(),
            class_targets: ClassTargets { public: None, private: None },
            input_classes: TextMap::new(),
        }
    }
}

#[derive(Debug)]
pub struct MigrationRequest {
    pub flake_path: String,
    pub allow_dirty: bool,
    pub policy: MigrationPolicySelection,
}

#[derive(Debug, Clone, Copy, PartialEq, Eq, Structural)]
pub enum DirectInputState {
    PlannedRewrite,
    AlreadyGitTransport,
    OtherLiteral,
    BlockedNoPolicy,
}

#[derive(Debug, Clone, PartialEq, Eq)]
pub struct DirectInputReport {
    pub input_name: String,
    pub original_url: String,
    pub shorthand_kind: Option<String>,
    pub source_host: Option<String>,
    pub repo_class: Option<MigrationRepoClass>,
    pub state: DirectInputState,
    pub selected_target: Option<MigrationTransport>,
    pub rewritten_url: Option<String>,
    pub blocked_reason: Option<String>,
}

#[derive(Debug, Clone, PartialEq, Eq)]
pub struct PlannedRewrite {
    pub input_name: String,
    pub before_url: String,
    pub after_url: String,
    pub target: MigrationTransport,
}

#[derive(Debug, Clone, PartialEq, Eq)]
pub struct MigrationInspectReport {
    pub flake_file: String,
    pub lock_file: String,
    pub direct_inputs: Vec<DirectInputReport>,
    pub planned_rewrites: Vec<PlannedRewrite>,
    pub unresolved_transitive_shorthand: Vec<TransitiveShorthandNode>,
    pub preview_diff: String,
}

#[derive(Debug, Clone, PartialEq, Eq)]
pub struct MigrationApplyReport {
    pub flake_file: String,
    pub lock_file: String,
    pub nix_version: Option<String>,
    pub direct_inputs: Vec<DirectInputReport>,
    pub planned_rewrites: Vec<PlannedRewrite>,
    pub relocked_inputs: Vec<String>,
    pub unresolved_transitive_shorthand: Vec<TransitiveShorthandNode>,
    pub diff: String,
}

#[derive(Debug, Clone, PartialEq, Eq)]
pub enum MigrationError {
    Read { path: String, error: String },
    Write { path: String, error: String },
    ParseJson { path: String, error: String },
    Canonicalize { path: String, error: String },
    MissingFlake(String),
    MissingLock(String),
    UnsupportedExpression { input_name: String, detail: String },
    UnsupportedShorthand { input_name: String, detail: String },
    NoTargetPolicy { input_name: String },
    DirtyWorktree { worktree_root: String },
    UnsupportedNixVersion { version: String },
    InvalidLockGraph { path: String, detail: String },
    RelockScopeViolation { input_name: String, detail: String },
    RelockNotIdempotent { input_name: String },
    BlockedDirectInputs { inputs: String },
    InvalidPolicyOption { option_kind: String, value: String },
    SpawnCommand { program: String, args: Vec<String>, error: String },
    Command { program: String, args: Vec<String>, status: Option<i32>, detail: String },
}

impl MigrationError {
    pub open spec fn message_text(self) -> Seq<char> {
        match self {
            MigrationError::Read { path, error } => "failed to read "@ + path@ + ": "@ + error@,
            MigrationError::Write { path, error } => "failed to write "@ + path@ + ": "@ + error@,
            MigrationError::ParseJson { path, error } => "failed to parse JSON "@ + path@ + ": "@
                + error@,
            MigrationError::Canonicalize { path, error } => "failed to resolve migration path "@
                + path@ + ": "@ + error@,
            MigrationError::MissingFlake(path) => "flake.nix was not found at "@ + path@,
            MigrationError::MissingLock(path) => "flake.lock was not found at "@ + path@,
            MigrationError::UnsupportedExpression { input_name, detail } =>
            "unsupported direct input expression for "@ + input_name@ + ": "@ + detail@,
            MigrationError::UnsupportedShorthand { input_name, detail } =>
            "unsupported shorthand url for "@ + input_name@ + ": "@ + detail@,
            MigrationError::NoTargetPolicy { input_name } =>
            "no migration target policy matched direct input "@ + input_name@,
            MigrationError::DirtyWorktree { worktree_root } =>
            "migration refused because the git worktree at "@ + worktree_root@ + " is dirty"@,
            MigrationError::UnsupportedNixVersion { version } => "nix version "@ + version@
                + " is outside the validated targeted relock matrix"@,
            MigrationError::InvalidLockGraph { path, detail } => "flake.lock at "@ + path@
                + " is outside the validated graph contract: "@ + detail@,
            MigrationError::RelockScopeViolation { input_name, detail } => "targeted relock for "@
                + input_name@ + " changed nodes outside the selected input closure: "@ + detail@,
            MigrationError::RelockNotIdempotent { input_name } => "targeted relock for "@
                + input_name@ + " was not idempotent on the second run"@,
            MigrationError::BlockedDirectInputs { inputs } =>
            "migration cannot proceed because direct shorthand inputs remain without policy: "@
                + inputs@,
            MigrationError::InvalidPolicyOption { option_kind, value } =>
            "failed to parse migration policy option "@ + option_kind@ + "="@ + value@,
            MigrationError::SpawnCommand { program, args, error } => "failed to spawn "@ + program@
                + " for args "@ + debug_list_text(texts(args@)) + ": "@ + error@,
            MigrationError::Command { program, args, status, detail } => program@
                + " failed for args "@ + debug_list_text(texts(args@)) + " with status "@
                + status_text(status) + ": "@ + detail@,
        }
    }

    /// The error in words.
    pub fn message(&self) -> (r: String)
        ensures
            r@ == self.message_text(),
    {
        match self {
            MigrationError::Read { path, error } => concat4("failed to read ", path, ": ", error),
            MigrationError::Write { path, error } => concat4(
                "failed to write ",
                path,
                ": ",
                error,
            ),
            MigrationError::ParseJson { path, error } => concat4(
                "failed to parse JSON ",
                path,
                ": ",
                error,
            ),
            MigrationError::Canonicalize { path, error } => concat4(
                "failed to resolve migration path ",
                path,
                ": ",
                error,
            ),
            MigrationError::MissingFlake(path) => concat2("flake.nix was not found at ", path),
            MigrationError::MissingLock(path) => concat2("flake.lock was not found at ", path),
            MigrationError::UnsupportedExpression { input_name, detail } => concat4(
                "unsupported direct input expression for ",
                input_name,
                ": ",
                detail,
            ),
            MigrationError::UnsupportedShorthand { input_name, detail } => concat4(
                "unsupported shorthand url for ",
                input_name,
                ": ",
                detail,
            ),
            MigrationError::NoTargetPolicy { input_name } => concat2(
                "no migration target policy matched direct input ",
                input_name,
            ),
            MigrationError::DirtyWorktree { worktree_root } => concat3(
                "migration refused because the git worktree at ",
                worktree_root,
                " is dirty",
            ),
            MigrationError::UnsupportedNixVersion { version } => concat3(
                "nix version ",
                version,
                " is outside the validated targeted relock matrix",
            ),
            MigrationError::InvalidLockGraph { path, detail } => concat4(
                "flake.lock at ",
                path,
                " is outside the validated graph contract: ",
                detail,
            ),
            MigrationError::RelockScopeViolation { input_name, detail } => concat4(
                "targeted relock for ",
                input_name,
                " changed nodes outside the selected input closure: ",
                detail,
            ),
            MigrationError::RelockNotIdempotent { input_name } => concat3(
                "targeted relock for ",
                input_name,
                " was not idempotent on the second run",
            ),
            MigrationError::BlockedDirectInputs { inputs } => concat2(
                "migration cannot proceed because direct shorthand inputs remain without policy: ",
                inputs,
            ),
            MigrationError::InvalidPolicyOption { option_kind, value } => concat4(
                "failed to parse migration policy option ",
                option_kind,
                "=",
                value,
            ),
            MigrationError::SpawnCommand { program, args, error } => {
                let head = concat4("failed to spawn ", program, " for args ", &debug_list(args));
                concat3(&head, ": ", error)
            },
            MigrationError::Command { program, args, status, detail } => {
                let head = concat5(
                    program,
                    " failed for args ",
                    &debug_list(args),
                    " with status ",
                    &render_status(*status),
                );
                concat3(&head, ": ", detail)
            },
        }
    }
}

/// The Nix versions that targeted relocking was validated with.
pub open spec fn validated_nix_versions() -> Seq<Seq<char>> {
    seq![
        "nix (Determinate Nix 3.0.0) 2.26.3"@,
        "nix (Nix) 2.28.5"@,
        "nix (Nix) 2.30.3+2"@,
        "nix (Nix) 2.31.3"@,
    ]
}

/// The Nix versions that targeted relocking was validated with.
pub fn validated_targeted_relock_nix_versions() -> (r: Vec<String>)
    ensures
        texts(r@) == validated_nix_versions(),
{
    vec![
        "nix (Determinate Nix 3.0.0) 2.26.3".to_owned(),
        "nix (Nix) 2.28.5".to_owned(),
        "nix (Nix) 2.30.3+2".to_owned(),
        "nix (Nix) 2.31.3".to_owned(),
    ]
}

// ---------------------------------------------------------------------------
// Policy options

pub open spec fn transport_in(value: Seq<char>) -> Option<MigrationTransport> {
    if value == "git+https"@ {
        Some(MigrationTransport::GitHttps)
    } else if value == "git+ssh"@ {
        Some(MigrationTransport::GitSsh)
    } else {
        None
    }
}

pub open spec fn class_in(value: Seq<char>) -> Option<MigrationRepoClass> {
    if value == "public"@ {
        Some(MigrationRepoClass::Public)
    } else if value == "private"@ {
        Some(MigrationRepoClass::Private)
    } else {
        None
    }
}

fn read_transport(value: &str) -> (r: Option<MigrationTransport>)
    ensures
        r == transport_in(value@),
{
    if same(value, "git+https") {
        Some(MigrationTransport::GitHttps)
    } else if same(value, "git+ssh") {
        Some(MigrationTransport::GitSsh)
    } else {
        None
    }
}

fn read_class(value: &str) -> (r: Option<MigrationRepoClass>)
    ensures
        r == class_in(value@),
{
    if same(value, "public") {
        Some(MigrationRepoClass::Public)
    } else if same(value, "private") {
        Some(MigrationRepoClass::Private)
    } else {
        None
    }
}

/// A name and the transport that an option `name=transport` gives it, or the text in it that is
/// wrong.
pub open spec fn target_option(entry: Seq<char>) -> Result<
    (Seq<char>, MigrationTransport),
    Seq<char>,
> {
    match halves(entry, '=') {
        None => Err(entry),
        Some((name, value)) => match transport_in(value) {
            Some(target) => Ok((name, target)),
            None => Err(value),
        },
    }
}

pub open spec fn input_class_option(entry: Seq<char>) -> Result<
    (Seq<char>, MigrationRepoClass),
    Seq<char>,
> {
    match halves(entry, '=') {
        None => Err(entry),
        Some((name, value)) => match class_in(value) {
            Some(class) => Ok((name, class)),
            None => Err(value),
        },
    }
}

pub open spec fn class_target_option(entry: Seq<char>) -> Result<
    (MigrationRepoClass, MigrationTransport),
    Seq<char>,
> {
    match halves(entry, '=') {
        None => Err(entry),
        Some((name, value)) => match class_in(name) {
            None => Err(name),
            Some(class) => match transport_in(value) {
                Some(target) => Ok((class, target)),
                None => Err(value),
            },
        },
    }
}

/// What the first `n` options say of names, the last of each name where there are more, or the
/// text that is wrong in the first that is.
pub open spec fn named_options<T>(
    entries: Seq<String>,
    n: int,
    read: spec_fn(Seq<char>) -> Result<(Seq<char>, T), Seq<char>>,
) -> Result<Map<Seq<char>, T>, Seq<char>>
    decreases n,
{
    if n <= 0 {
        Ok(Map::empty())
    } else {
        match named_options(entries, n - 1, read) {
            Err(value) => Err(value),
            Ok(map) => match read(entries[n - 1]@) {
                Ok((name, value)) => Ok(map.insert(name, value)),
                Err(value) => Err(value),
            },
        }
    }
}

/// What the first `n` options say of classes.
pub open spec fn class_options(entries: Seq<String>, n: int) -> Result<ClassTargets, Seq<char>>
    decreases n,
{
    if n <= 0 {
        Ok(ClassTargets { public: None, private: None })
    } else {
        match class_options(entries, n - 1) {
            Err(value) => Err(value),
            Ok(targets) => match class_target_option(entries[n - 1]@) {
                Ok((class, target)) => Ok(targets.having(class, target)),
                Err(value) => Err(value),
            },
        }
    }
}

proof fn lemma_named_options_stop<T>(
    entries: Seq<String>,
    n: int,
    m: int,
    read: spec_fn(Seq<char>) -> Result<(Seq<char>, T), Seq<char>>,
)
    requires
        0 <= n <= m,
        named_options(entries, n, read) is Err,
    ensures
        named_options(entries, m, read) == named_options(entries, n, read),
    decreases m - n,
{
    if n < m {
        lemma_named_options_stop(entries, n, m - 1, read);
    }
}

proof fn lemma_class_options_stop(entries: Seq<String>, n: int, m: int)
    requires
        0 <= n <= m,
        class_options(entries, n) is Err,
    ensures
        class_options(entries, m) == class_options(entries, n),
    decreases m - n,
{
    if n < m {
        lemma_class_options_stop(entries, n, m - 1);
    }
}

/// Options that give an input a transport.
pub open spec fn input_targets_in(entries: Seq<String>) -> Result<
    Map<Seq<char>, MigrationTransport>,
    Seq<char>,
> {
    named_options(entries, entries.len() as int, input_target_reader())
}

pub open spec fn input_target_reader() -> spec_fn(Seq<char>) -> Result<
    (Seq<char>, MigrationTransport),
    Seq<char>,
> {
    |entry: Seq<char>| target_option(entry)
}

/// Options that give a host a transport; hosts are told apart without regard to case.
pub open spec fn host_targets_in(entries: Seq<String>) -> Result<
    Map<Seq<char>, MigrationTransport>,
    Seq<char>,
> {
    named_options(entries, entries.len() as int, host_target_reader())
}

pub open spec fn host_target_reader() -> spec_fn(Seq<char>) -> Result<
    (Seq<char>, MigrationTransport),
    Seq<char>,
> {
    |entry: Seq<char>|
        match target_option(entry) {
            Ok((host, target)) => Ok((lowered(host), target)),
            Err(value) => Err(value),
        }
}

/// Options that give an input a class.
pub open spec fn input_classes_in(entries: Seq<String>) -> Result<
    Map<Seq<char>, MigrationRepoClass>,
    Seq<char>,
> {
    named_options(entries, entries.len() as int, input_class_reader())
}

pub open spec fn input_class_reader() -> spec_fn(Seq<char>) -> Result<
    (Seq<char>, MigrationRepoClass),
    Seq<char>,
> {
    |entry: Seq<char>| input_class_option(entry)
}

pub open spec fn class_targets_in(entries: Seq<String>) -> Result<ClassTargets, Seq<char>> {
    class_options(entries, entries.len() as int)
}

fn parse_target_option(entry: &str) -> (r: Result<(String, MigrationTransport), String>)
    ensures
        match r {
            Ok((name, target)) => target_option(entry@) == Ok::<
                (Seq<char>, MigrationTransport),
                Seq<char>,
            >((name@, target)),
            Err(value) => target_option(entry@) == Err::<
                (Seq<char>, MigrationTransport),
                Seq<char>,
            >(value@),
        },
{
    match split_once(entry, '=') {
        None => Err(entry.to_owned()),
        Some((name, value)) => match read_transport(&value) {
            Some(target) => Ok((name, target)),
            None => Err(value),
        },
    }
}

fn parse_targets(entries: &Vec<String>, lower: bool) -> (r: Result<
    TextMap<MigrationTransport>,
    String,
>)
    ensures
        ({
            let expected = if lower {
                host_targets_in(entries@)
            } else {
                input_targets_in(entries@)
            };
            match r {
                Ok(targets) => expected is Ok && expected->Ok_0 == targets@,
                Err(value) => expected is Err && expected->Err_0 == value@,
            }
        }),
{
    let ghost read = if lower {
        host_target_reader()
    } else {
        input_target_reader()
    };
    let mut targets: TextMap<MigrationTransport> = TextMap::new();
    let mut i: usize = 0;
    while i < entries.len()
        invariant
            i <= entries@.len(),
            read == (if lower {
                host_target_reader()
            } else {
                input_target_reader()
            }),
            named_options(entries@, i as int, read) == Ok::<
                Map<Seq<char>, MigrationTransport>,
                Seq<char>,
            >(targets@),
        decreases entries@.len() - i,
    {
        match parse_target_option(&entries[i]) {
            Ok((name, target)) => {
                let name = if lower {
                    to_lower(&name)
                } else {
                    name
                };
                targets = targets.with(name, target);
            },
            Err(value) => {
                proof {
                    assert(named_options(entries@, i + 1, read) is Err);
                    lemma_named_options_stop(entries@, i + 1, entries@.len() as int, read);
                }
                return Err(value);
            },
        }
        i += 1;
    }
    Ok(targets)
}

fn parse_class_targets(entries: &Vec<String>) -> (r: Result<ClassTargets, String>)
    ensures
        match r {
            Ok(targets) => class_targets_in(entries@) == Ok::<ClassTargets, Seq<char>>(targets),
            Err(value) => class_targets_in(entries@) == Err::<ClassTargets, Seq<char>>(value@),
        },
{
    let mut targets = ClassTargets { public: None, private: None };
    let mut i: usize = 0;
    while i < entries.len()
        invariant
            i <= entries@.len(),
            class_options(entries@, i as int) == Ok::<ClassTargets, Seq<char>>(targets),
        decreases entries@.len() - i,
    {
        let wrong = match split_once(&entries[i], '=') {
            None => Some(entries[i].clone()),
            Some((name, value)) => match read_class(&name) {
                None => Some(name),
                Some(class) => match read_transport(&value) {
                    None => Some(value),
                    Some(target) => {
                        targets = targets.with(class, target);
                        None
                    },
                },
            },
        };
        match wrong {
            Some(value) => {
                proof {
                    lemma_class_options_stop(entries@, i + 1, entries@.len() as int);
                }
                return Err(value);
            },
            None => {},
        }
        i += 1;
    }
    Ok(targets)
}

fn parse_input_classes(entries: &Vec<String>) -> (r: Result<TextMap<MigrationRepoClass>, String>)
    ensures
        match r {
            Ok(classes) => input_classes_in(entries@) is Ok && input_classes_in(entries@)->Ok_0
                == classes@,
            Err(value) => input_classes_in(entries@) is Err && input_classes_in(entries@)->Err_0
                == value@,
        },
{
    let ghost read = input_class_reader();
    let mut classes: TextMap<MigrationRepoClass> = TextMap::new();
    let mut i: usize = 0;
    while i < entries.len()
        invariant
            i <= entries@.len(),
            read == input_class_reader(),
            named_options(entries@, i as int, read) == Ok::<
                Map<Seq<char>, MigrationRepoClass>,
                Seq<char>,
            >(classes@),
        decreases entries@.len() - i,
    {
        let wrong = match split_once(&entries[i], '=') {
            None => Some(entries[i].clone()),
            Some((name, value)) => match read_class(&value) {
                None => Some(value),
                Some(class) => {
                    classes = classes.with(name, class);
                    None
                },
            },
        };
        match wrong {
            Some(value) => {
                proof {
                    assert(named_options(entries@, i + 1, read) is Err);
                    lemma_named_options_stop(entries@, i + 1, entries@.len() as int, read);
                }
                return Err(value);
            },
            None => {},
        }
        i += 1;
    }
    Ok(classes)
}

fn invalid_option(option_kind: &str, value: String) -> (r: MigrationError)
    ensures
        bad_option(r, option_kind@, value@),
{
    MigrationError::InvalidPolicyOption { option_kind: option_kind.to_owned(), value }
}

/// Whether `error` says that `value` is wrong in an option.
pub open spec fn bad_option(
    error: MigrationError,
    option_kind: Seq<char>,
    value: Seq<char>,
) -> bool {
    error is InvalidPolicyOption && error->InvalidPolicyOption_option_kind@ == option_kind
        && error->InvalidPolicyOption_value@ == value
}

/// The policy that options say. Of the options that are wrong, the first is reported, those of
/// inputs before those of hosts, of classes, and of the classes of inputs.
pub fn parse_policy_overrides(
    input_targets: &Vec<String>,
    host_targets: &Vec<String>,
    class_targets: &Vec<String>,
    input_classes: &Vec<String>,
) -> (r: Result<MigrationPolicySelection, MigrationError>)
    ensures
        match r {
            Ok(policy) => {
                &&& input_targets_in(input_targets@) is Ok
                &&& host_targets_in(host_targets@) is Ok
                &&& class_targets_in(class_targets@) is Ok
                &&& input_classes_in(input_classes@) is Ok
                &&& policy.input_targets@ == input_targets_in(input_targets@)->Ok_0
                &&& policy.host_targets@ == host_targets_in(host_targets@)->Ok_0
                &&& policy.class_targets == class_targets_in(class_targets@)->Ok_0
                &&& policy.input_classes@ == input_classes_in(input_classes@)->Ok_0
            },
            Err(error) => if input_targets_in(input_targets@) is Err {
                bad_option(error, "input-target"@, input_targets_in(input_targets@)->Err_0)
            } else if host_targets_in(host_targets@) is Err {
                bad_option(error, "host-target"@, host_targets_in(host_targets@)->Err_0)
            } else if class_targets_in(class_targets@) is Err {
                bad_option(error, "class-target"@, class_targets_in(class_targets@)->Err_0)
            } else {
                input_classes_in(input_classes@) is Err && bad_option(
                    error,
                    "input-class"@,
                    input_classes_in(input_classes@)->Err_0,
                )
            },
        },
{
    let inputs = match parse_targets(input_targets, false) {
        Ok(targets) => targets,
        Err(value) => {
            return Err(invalid_option("input-target", value));
        },
    };
    let hosts = match parse_targets(host_targets, true) {
        Ok(targets) => targets,
        Err(value) => {
            return Err(invalid_option("host-target", value));
        },
    };
    let classes = match parse_class_targets(class_targets) {
        Ok(targets) => targets,
        Err(value) => {
            return Err(invalid_option("class-target", value));
        },
    };
    let input_class = match parse_input_classes(input_classes) {
        Ok(classes) => classes,
        Err(value) => {
            return Err(invalid_option("input-class", value));
        },
    };
    Ok(
        MigrationPolicySelection {
            input_targets: inputs,
            host_targets: hosts,
            class_targets: classes,
            input_classes: input_class,
        },
    )
}

// ---------------------------------------------------------------------------
// Plans

/// The transport that is chosen for an input: the one that was asked for the input, for its host,
/// or for its class, or the only one that is supported.
pub open spec fn selected(
    config: AppConfig,
    policy: MigrationPolicySelection,
    input_name: Seq<char>,
    host: Seq<char>,
    class: Option<MigrationRepoClass>,
) -> Option<MigrationTransport> {
    if policy.input_targets@.contains_key(input_name) {
        Some(policy.input_targets@[input_name])
    } else if policy.host_targets@.contains_key(lowered(host)) {
        Some(policy.host_targets@[lowered(host)])
    } else if class is Some && policy.class_targets.of(class->0) is Some {
        policy.class_targets.of(class->0)
    } else if config.migration.supported_targets@.len() == 1 {
        Some(config.migration.supported_targets@[0])
    } else {
        None
    }
}

/// The transport that is chosen for an input.
pub fn select_transport(
    config: &AppConfig,
    policy: &MigrationPolicySelection,
    input_name: &str,
    host: &str,
    repo_class: Option<MigrationRepoClass>,
) -> (r: Option<MigrationTransport>)
    ensures
        r == selected(*config, *policy, input_name@, host@, repo_class),
{
    match policy.input_targets.get(input_name) {
        Some(target) => {
            return Some(*target);
        },
        None => {},
    }
    match policy.host_targets.get(&to_lower(host)) {
        Some(target) => {
            return Some(*target);
        },
        None => {},
    }
    match repo_class {
        Some(class) => match policy.class_targets.get(&class) {
            Some(target) => {
                return Some(*target);
            },
            None => {},
        },
        None => {},
    }
    if config.migration.supported_targets.len() == 1 {
        Some(config.migration.supported_targets[0])
    } else {
        None
    }
}

/// The class that a policy gives an input.
pub open spec fn class_of(policy: MigrationPolicySelection, name: Seq<char>) -> Option<
    MigrationRepoClass,
> {
    if policy.input_classes@.contains_key(name) {
        Some(policy.input_classes@[name])
    } else {
        None
    }
}

/// What becomes of an input.
pub struct Outcome {
    pub state: DirectInputState,
    pub kind: Option<Seq<char>>,
    pub host: Option<Seq<char>>,
    pub target: Option<MigrationTransport>,
    pub url: Option<Seq<char>>,
    pub reason: Option<Seq<char>>,
}

pub open spec fn left_alone(state: DirectInputState) -> Outcome {
    Outcome { state, kind: None, host: None, target: None, url: None, reason: None }
}

/// What becomes of an input that is assigned `value`, or what is wrong with its shorthand.
pub open spec fn outcome(
    config: AppConfig,
    policy: MigrationPolicySelection,
    name: Seq<char>,
    value: Seq<char>,
) -> Result<Outcome, Seq<char>> {
    if is_git_url(value) {
        Ok(left_alone(DirectInputState::AlreadyGitTransport))
    } else if !is_shorthand(value) {
        Ok(left_alone(DirectInputState::OtherLiteral))
    } else {
        match shorthand(value) {
            Err(detail) => Err(detail),
            Ok(parsed) => match selected(
                config,
                policy,
                name,
                parsed.host,
                class_of(policy, name),
            ) {
                Some(target) => Ok(
                    Outcome {
                        state: DirectInputState::PlannedRewrite,
                        kind: Some(parsed.kind.text()),
                        host: Some(parsed.host),
                        target: Some(target),
                        url: Some(git_url(parsed, target)),
                        reason: None,
                    },
                ),
                None => Ok(
                    Outcome {
                        state: DirectInputState::BlockedNoPolicy,
                        kind: Some(parsed.kind.text()),
                        host: Some(parsed.host),
                        target: None,
                        url: None,
                        reason: Some("no migration target policy matched this direct input"@),
                    },
                ),
            },
        }
    }
}

/// Whether `report` tells what becomes of an input.
pub open spec fn reports(
    config: AppConfig,
    policy: MigrationPolicySelection,
    assigned: Assigned,
    report: DirectInputReport,
) -> bool {
    let expected = outcome(config, policy, assigned.name, assigned.value);
    &&& expected is Ok
    &&& report.input_name@ == assigned.name
    &&& report.original_url@ == assigned.value
    &&& text_of(report.shorthand_kind) == expected->Ok_0.kind
    &&& text_of(report.source_host) == expected->Ok_0.host
    &&& report.repo_class == class_of(policy, assigned.name)
    &&& report.state == expected->Ok_0.state
    &&& report.selected_target == expected->Ok_0.target
    &&& text_of(report.rewritten_url) == expected->Ok_0.url
    &&& text_of(report.blocked_reason) == expected->Ok_0.reason
}

/// Whether `error` says that the shorthand of an input is not supported.
pub open spec fn bad_shorthand(error: MigrationError, name: Seq<char>, detail: Seq<char>) -> bool {
    error is UnsupportedShorthand && error->UnsupportedShorthand_input_name@ == name
        && error->UnsupportedShorthand_detail@ == detail
}

/// What becomes of an input.
pub fn classify_assignment(
    config: &AppConfig,
    policy: &MigrationPolicySelection,
    assignment: &DirectInputAssignment,
) -> (r: Result<DirectInputReport, MigrationError>)
    ensures
        match r {
            Ok(report) => reports(*config, *policy, assignment.assigned(), report),
            Err(error) => {
                let expected = outcome(
                    *config,
                    *policy,
                    assignment.input_name@,
                    assignment.value@,
                );
                expected is Err && bad_shorthand(error, assignment.input_name@, expected->Err_0)
            },
        },
{
    let repo_class = match policy.input_classes.get(&assignment.input_name) {
        Some(class) => Some(*class),
        None => None,
    };
    let git_url = matches_git_transport(&assignment.value);
    if git_url || !matches_shorthand_prefix(&assignment.value) {
        return Ok(
            DirectInputReport {
                input_name: assignment.input_name.clone(),
                original_url: assignment.value.clone(),
                shorthand_kind: None,
                source_host: None,
                repo_class,
                state: if git_url {
                    DirectInputState::AlreadyGitTransport
                } else {
                    DirectInputState::OtherLiteral
                },
                selected_target: None,
                rewritten_url: None,
                blocked_reason: None,
            },
        );
    }
    let parsed = match parse_shorthand_url(&assignment.input_name, &assignment.value) {
        Ok(parsed) => parsed,
        Err(error) => {
            return Err(error);
        },
    };
    let target = select_transport(
        config,
        policy,
        &assignment.input_name,
        &parsed.host,
        repo_class,
    );
    let state;
    let rewritten_url;
    let blocked_reason;
    match target {
        Some(target) => {
            state = DirectInputState::PlannedRewrite;
            rewritten_url = Some(render_git_url(&parsed, target));
            blocked_reason = None;
        },
        None => {
            state = DirectInputState::BlockedNoPolicy;
            rewritten_url = None;
            blocked_reason = Some(
                "no migration target policy matched this direct input".to_owned(),
            );
        },
    }
    Ok(
        DirectInputReport {
            input_name: assignment.input_name.clone(),
            original_url: assignment.value.clone(),
            shorthand_kind: Some(parsed.kind.label().to_owned()),
            source_host: Some(parsed.host),
            repo_class,
            state,
            selected_target: target,
            rewritten_url,
            blocked_reason,
        },
    )
}

/// The new value of an input that is rewritten.
pub open spec fn new_url(
    config: AppConfig,
    policy: MigrationPolicySelection,
    assigned: Assigned,
) -> Option<Seq<char>> {
    match outcome(config, policy, assigned.name, assigned.value) {
        Ok(found) => found.url,
        Err(_) => None,
    }
}

pub open spec fn new_urls(
    config: AppConfig,
    policy: MigrationPolicySelection,
    found: Seq<Assigned>,
) -> Seq<Option<Seq<char>>> {
    Seq::new(found.len(), |i: int| new_url(config, policy, found[i]))
}

/// What is said of an input that is rewritten.
pub struct Rewrite {
    pub name: Seq<char>,
    pub before: Seq<char>,
    pub after: Seq<char>,
    pub target: MigrationTransport,
}

impl View for PlannedRewrite {
    type V = Rewrite;

    open spec fn view(&self) -> Rewrite {
        Rewrite {
            name: self.input_name@,
            before: self.before_url@,
            after: self.after_url@,
            target: self.target,
        }
    }
}

pub open spec fn rewrites(planned: Seq<PlannedRewrite>) -> Seq<Rewrite> {
    Seq::new(planned.len(), |i: int| planned[i]@)
}

/// The rewrites among the first `n` inputs.
pub open spec fn planned(
    config: AppConfig,
    policy: MigrationPolicySelection,
    found: Seq<Assigned>,
    n: int,
) -> Seq<Rewrite>
    decreases n,
{
    if n <= 0 {
        Seq::empty()
    } else {
        let input = found[n - 1];
        let before = planned(config, policy, found, n - 1);
        match outcome(config, policy, input.name, input.value) {
            Ok(found) if found.url is Some => before.push(
                Rewrite {
                    name: input.name,
                    before: input.value,
                    after: found.url->0,
                    target: found.target->0,
                },
            ),
            _ => before,
        }
    }
}

/// The first of the first `n` inputs whose shorthand is wrong, and what is wrong with it.
pub open spec fn first_bad(
    config: AppConfig,
    policy: MigrationPolicySelection,
    found: Seq<Assigned>,
    n: int,
) -> Option<(Seq<char>, Seq<char>)>
    decreases n,
{
    if n <= 0 {
        None
    } else {
        match first_bad(config, policy, found, n - 1) {
            Some(first) => Some(first),
            None => match outcome(config, policy, found[n - 1].name, found[n - 1].value) {
                Err(detail) => Some((found[n - 1].name, detail)),
                Ok(_) => None,
            },
        }
    }
}

proof fn lemma_first_bad_stays(
    config: AppConfig,
    policy: MigrationPolicySelection,
    found: Seq<Assigned>,
    n: int,
    m: int,
)
    requires
        0 <= n <= m,
        first_bad(config, policy, found, n) is Some,
    ensures
        first_bad(config, policy, found, m) == first_bad(config, policy, found, n),
    decreases m - n,
{
    if n < m {
        lemma_first_bad_stays(config, policy, found, n, m - 1);
    }
}

// ---------------------------------------------------------------------------
// Changes of a text

/// A new URL, and the bytes of the text that its literal takes the place of.
#[derive(Debug, Clone, PartialEq, Eq)]
pub struct Replacement {
    pub span: Span,
    pub url: String,
}

/// What a replacement says.
pub struct Change {
    pub start: int,
    pub end: int,
    pub url: Seq<char>,
}

impl View for Replacement {
    type V = Change;

    open spec fn view(&self) -> Change {
        Change { start: self.span.start as int, end: self.span.end as int, url: self.url@ }
    }
}

impl Ordered for Replacement {
    /// The one that starts last first.
    open spec fn le(&self, other: &Self) -> bool {
        self.span.start >= other.span.start
    }

    proof fn total(a: &Self, b: &Self) {
    }

    proof fn transitive(a: &Self, b: &Self, c: &Self) {
    }

    fn not_after(&self, other: &Self) -> (r: bool) {
        self.span.start >= other.span.start
    }
}

pub open spec fn change_view() -> spec_fn(Replacement) -> Change {
    |r: Replacement| r@
}

pub open spec fn change_views(changes: Seq<Replacement>) -> Seq<Change> {
    changes.map_values(change_view())
}

/// The order of changes by their start, from the last.
pub open spec fn later_first() -> spec_fn(Change, Change) -> bool {
    |a: Change, b: Change| a.start >= b.start
}

/// The changes that the first `n` inputs ask for.
pub open spec fn changes(found: Seq<Assigned>, urls: Seq<Option<Seq<char>>>, n: int) -> Seq<Change>
    decreases n,
{
    if n <= 0 {
        Seq::empty()
    } else {
        let before = changes(found, urls, n - 1);
        match urls[n - 1] {
            Some(url) => before.push(
                Change { start: found[n - 1].start, end: found[n - 1].end, url },
            ),
            None => before,
        }
    }
}

/// Whether a change is one of a text: it starts and ends between characters, and does not end
/// before it starts.
pub open spec fn fits(text: Seq<u8>, change: Change) -> bool {
    &&& change.start <= change.end
    &&& is_char_boundary(text, change.start)
    &&& is_char_boundary(text, change.end)
}

/// A text with the literal of the new URL in place of the bytes that a change names.
pub open spec fn replaced(text: Seq<u8>, change: Change) -> Seq<u8> {
    text.subrange(0, change.start) + encode_utf8(quoted(change.url)) + text.subrange(
        change.end,
        text.len() as int,
    )
}

/// A text with the changes made, one after the other.
pub open spec fn applied(text: Seq<u8>, changes: Seq<Change>) -> Seq<u8>
    decreases changes.len(),
{
    if changes.len() == 0 {
        text
    } else {
        applied(replaced(text, changes[0]), changes.skip(1))
    }
}

/// Whether each of the changes is one of the text that those before it leave.
pub open spec fn applicable(text: Seq<u8>, changes: Seq<Change>) -> bool
    decreases changes.len(),
{
    changes.len() == 0 || (fits(text, changes[0]) && applicable(
        replaced(text, changes[0]),
        changes.skip(1),
    ))
}

/// The changes of a flake in the order in which they are made: the one that starts last first,
/// those that start together in the order of the inputs.
pub open spec fn ordered_changes(found: Seq<Assigned>, urls: Seq<Option<Seq<char>>>) -> Seq<
    Change,
> {
    sorted_by(changes(found, urls, found.len() as int), later_first())
}

/// Whether the new URLs can be put in place of the values of the inputs.
pub open spec fn rewritable(
    source: Seq<char>,
    found: Seq<Assigned>,
    urls: Seq<Option<Seq<char>>>,
) -> bool {
    applicable(encode_utf8(source), ordered_changes(found, urls))
}

/// A flake with the new URLs in place of the values of the inputs.
pub open spec fn with_urls(
    source: Seq<char>,
    found: Seq<Assigned>,
    urls: Seq<Option<Seq<char>>>,
) -> Seq<char> {
    decode_utf8(applied(encode_utf8(source), ordered_changes(found, urls)))
}

/// What is to be done with a flake: what becomes of each input, the rewrites, and the text of the
/// flake once they are made.
#[derive(Debug, Clone, PartialEq, Eq)]
pub struct RewritePlan {
    pub direct_inputs: Vec<DirectInputReport>,
    pub planned_rewrites: Vec<PlannedRewrite>,
    pub rewritten_source: String,
}

/// Whether `plan` is what is to be done with a flake that assigns `found`.
pub open spec fn plans(
    config: AppConfig,
    policy: MigrationPolicySelection,
    source: Seq<char>,
    found: Seq<Assigned>,
    plan: RewritePlan,
) -> bool {
    &&& first_bad(config, policy, found, found.len() as int) is None
    &&& plan.direct_inputs@.len() == found.len()
    &&& forall|i: int|
        0 <= i < found.len() ==> reports(
            config,
            policy,
            found[i],
            #[trigger] plan.direct_inputs@[i],
        )
    &&& rewrites(plan.planned_rewrites@) == planned(config, policy, found, found.len() as int)
    &&& plan.rewritten_source@ == with_urls(source, found, new_urls(config, policy, found))
}

/// Applies a change to a text.
fn replace(text: &str, change: &Replacement) -> (r: String)
    requires
        fits(encode_utf8(text@), change@),
    ensures
        encode_utf8(r@) == replaced(encode_utf8(text@), change@),
{
    let (head, _) = text.split_at(change.span.start);
    let (_, tail) = text.split_at(change.span.end);
    let value = quote_string(&change.url);
    proof {
        lemma_encode_sum(head@ + value@, tail@);
        lemma_encode_sum(head@, value@);
    }
    concat3(head, &value, tail)
}

/// The text with the changes made, the one that starts last first.
fn apply(text: &str, changes: Vec<Replacement>) -> (r: String)
    requires
        applicable(encode_utf8(text@), sorted_by(change_views(changes@), later_first())),
    ensures
        encode_utf8(r@) == applied(
            encode_utf8(text@),
            sorted_by(change_views(changes@), later_first()),
        ),
{
    proof {
        order::lemma_sorted_view(changes@, change_view(), later_first());
    }
    let changes = order::sort(changes);
    let ghost all = change_views(changes@);
    let ghost whole = applied(encode_utf8(text@), all);
    let mut out = text.to_owned();
    let mut i: usize = 0;
    assert(all.skip(0) =~= all);
    while i < changes.len()
        invariant
            i <= changes@.len(),
            all == change_views(changes@),
            applicable(encode_utf8(out@), all.skip(i as int)),
            applied(encode_utf8(out@), all.skip(i as int)) == whole,
        decreases changes@.len() - i,
    {
        assert(all.skip(i as int)[0] == changes@[i as int]@);
        assert(all.skip(i as int).skip(1) =~= all.skip(i + 1));
        out = replace(&out, &changes[i]);
        i += 1;
    }
    out
}

/// What is to be done with a flake.
pub fn build_rewrite_plan(
    config: &AppConfig,
    request: &MigrationRequest,
    flake_source: &str,
    assignments: &Vec<DirectInputAssignment>,
) -> (r: Result<RewritePlan, MigrationError>)
    requires
        first_bad(
            *config,
            request.policy,
            all_assigned(assignments@),
            assignments@.len() as int,
        ) is None ==> rewritable(
            flake_source@,
            all_assigned(assignments@),
            new_urls(*config, request.policy, all_assigned(assignments@)),
        ),
    ensures
        match r {
            Ok(plan) => plans(
                *config,
                request.policy,
                flake_source@,
                all_assigned(assignments@),
                plan,
            ),
            Err(error) => {
                let bad = first_bad(
                    *config,
                    request.policy,
                    all_assigned(assignments@),
                    assignments@.len() as int,
                );
                match bad {
                    Some((name, detail)) => bad_shorthand(error, name, detail),
                    None => false,
                }
            },
        },
{
    let policy = &request.policy;
    let ghost found = all_assigned(assignments@);
    let ghost urls = new_urls(*config, *policy, found);
    let mut direct_inputs: Vec<DirectInputReport> = Vec::new();
    let mut planned_rewrites: Vec<PlannedRewrite> = Vec::new();
    let mut replacements: Vec<Replacement> = Vec::new();
    let mut i: usize = 0;
    assert(rewrites(planned_rewrites@) =~= Seq::empty());
    assert(change_views(replacements@) =~= Seq::empty());
    while i < assignments.len()
        invariant
            i <= assignments@.len(),
            *policy == request.policy,
            found == all_assigned(assignments@),
            direct_inputs@.len() == i,
            first_bad(*config, *policy, found, i as int) is None,
            forall|j: int|
                0 <= j < i ==> reports(*config, *policy, found[j], #[trigger] direct_inputs@[j]),
            rewrites(planned_rewrites@) == planned(*config, *policy, found, i as int),
            urls == new_urls(*config, *policy, found),
            change_views(replacements@) == changes(found, urls, i as int),
        decreases assignments@.len() - i,
    {
        assert(found[i as int] == assignments@[i as int].assigned());
        let report = match classify_assignment(config, policy, &assignments[i]) {
            Ok(report) => report,
            Err(error) => {
                proof {
                    lemma_first_bad_stays(
                        *config,
                        *policy,
                        found,
                        i + 1,
                        assignments@.len() as int,
                    );
                }
                return Err(error);
            },
        };
        let ghost earlier = planned_rewrites@;
        let ghost earlier_changes = replacements@;
        assert(urls[i as int] == text_of(report.rewritten_url));
        match (&report.rewritten_url, report.selected_target) {
            (Some(url), Some(target)) => {
                let rewrite = PlannedRewrite {
                    input_name: report.input_name.clone(),
                    before_url: report.original_url.clone(),
                    after_url: url.clone(),
                    target,
                };
                let replacement = Replacement {
                    span: assignments[i].value_span,
                    url: url.clone(),
                };
                replacements.push(replacement);
                assert(change_views(replacements@) =~= change_views(earlier_changes).push(
                    replacement@,
                ));
                planned_rewrites.push(rewrite);
                assert(rewrites(planned_rewrites@) =~= rewrites(earlier).push(rewrite@));
            },
            _ => {},
        }
        direct_inputs.push(report);
        i += 1;
    }
    let rewritten_source = apply(flake_source, replacements);
    proof {
        encode_utf8_decode_utf8(rewritten_source@);
    }
    Ok(RewritePlan { direct_inputs, planned_rewrites, rewritten_source })
}

// ---------------------------------------------------------------------------
// Changes of what is read

proof fn lemma_boundary(s: Seq<char>, i: int)
    requires
        0 <= i <= s.len(),
    ensures
        is_char_boundary(encode_utf8(s), byte_offset(s, i)),
    decreases i,
{
    encode_utf8_valid_utf8(s);
    lemma_offsets_grow(s, 0, i);
    lemma_offsets_grow(s, i, s.len() as int);
    if i > 0 {
        let rest = s.drop_first();
        encode_utf8_first_scalar(s);
        lemma_boundary(rest, i - 1);
        encode_utf8_valid_utf8(rest);
        assert(s.take(i).drop_first() =~= rest.take(i - 1));
        assert(s.take(i)[0] == s[0]);
        assert(pop_first_scalar(encode_utf8(s)) =~= encode_utf8(rest));
    } else {
        assert(s.take(0) =~= Seq::empty());
    }
}

proof fn lemma_spliced_from(
    s: Seq<char>,
    found: Seq<Assigned>,
    urls: Seq<Option<Seq<char>>>,
    at: int,
    to: int,
    k: int,
)
    requires
        spans_fit(found, s.len() as int),
        0 <= k <= found.len(),
        0 <= at <= to <= s.len(),
        k < found.len() ==> to <= found[k].start,
    ensures
        spliced(s, found, urls, at, k) == s.subrange(at, to) + spliced(s, found, urls, to, k),
{
    if k < found.len() {
        let start = found[k].start;
        let value = written(s, found[k], urls[k]);
        let rest = spliced(s, found, urls, found[k].end, k + 1);
        assert(s.subrange(at, start) + value + rest =~= s.subrange(at, to) + (s.subrange(to, start)
            + value + rest));
    } else {
        assert(s.skip(at) =~= s.subrange(at, to) + s.skip(to));
    }
}

/// Changes of inputs that stand one after the other start one after the other.
proof fn lemma_changes_rise(found: Seq<Assigned>, urls: Seq<Option<Seq<char>>>, n: int)
    requires
        0 <= n <= found.len(),
        forall|i: int, j: int|
            0 <= i < j < found.len() ==> (#[trigger] found[i]).start < (#[trigger] found[j]).start,
    ensures
        forall|i: int, j: int|
            0 <= i < j < changes(found, urls, n).len() ==> (#[trigger] changes(
                found,
                urls,
                n,
            )[i]).start < (#[trigger] changes(found, urls, n)[j]).start,
        forall|i: int|
            0 <= i < changes(found, urls, n).len() ==> 0 < n && (#[trigger] changes(
                found,
                urls,
                n,
            )[i]).start <= found[n - 1].start,
    decreases n,
{
    if n > 0 {
        lemma_changes_rise(found, urls, n - 1);
        let before = changes(found, urls, n - 1);
        let all = changes(found, urls, n);
        assert forall|i: int| 0 <= i < all.len() implies (#[trigger] all[i]).start <= found[n
            - 1].start by {
            if i < before.len() {
                assert(all[i] == before[i]);
            }
        }
        assert forall|i: int, j: int| 0 <= i < j < all.len() implies (#[trigger] all[i]).start < (
        #[trigger] all[j]).start by {
            assert(all[i] == before[i]);
            if j < before.len() {
                assert(all[j] == before[j]);
            }
        }
    }
}

proof fn lemma_changes_ordered(found: Seq<Assigned>, urls: Seq<Option<Seq<char>>>)
    requires
        forall|i: int, j: int|
            0 <= i < j < found.len() ==> (#[trigger] found[i]).start < (#[trigger] found[j]).start,
    ensures
        ordered_changes(found, urls) == changes(found, urls, found.len() as int).reverse(),
{
    let all = changes(found, urls, found.len() as int);
    let back = all.reverse();
    let le = later_first();
    lemma_changes_rise(found, urls, found.len() as int);
    order::lemma_sorted_by(all, le);
    all.lemma_reverse_to_multiset();
    assert forall|i: int, j: int| 0 <= i < j < back.len() implies le(
        #[trigger] back[i],
        #[trigger] back[j],
    ) by {
        assert(all[all.len() - 1 - j].start < all[all.len() - 1 - i].start);
    }
    assert forall|i: int, j: int|
        0 <= i < back.len() && 0 <= j < back.len() && le(#[trigger] back[i], #[trigger] back[j])
            && le(back[j], back[i]) implies back[i] == back[j] by {
        if i < j {
            assert(all[all.len() - 1 - j].start < all[all.len() - 1 - i].start);
        } else if j < i {
            assert(all[all.len() - 1 - i].start < all[all.len() - 1 - j].start);
        }
    }
    order::lemma_one_order(back, ordered_changes(found, urls), le);
}

proof fn lemma_applied_back(
    s: Seq<char>,
    found: Seq<Assigned>,
    urls: Seq<Option<Seq<char>>>,
    k: int,
)
    requires
        spans_fit(found, s.len() as int),
        urls.len() == found.len(),
        0 <= k <= found.len(),
    ensures
        ({
            let text = encode_utf8(spliced(s, found, urls, 0, k));
            let rest = changes(in_bytes(s, found), urls, k).reverse();
            &&& applicable(text, rest)
            &&& applied(text, rest) == encode_utf8(spliced(s, found, urls, 0, 0))
        }),
    decreases k,
{
    let text = spliced(s, found, urls, 0, k);
    let all = changes(in_bytes(s, found), urls, k);
    if k == 0 {
        assert(all.reverse() =~= Seq::empty());
    } else {
        let start = found[k - 1].start;
        let end = found[k - 1].end;
        if k < found.len() {
            assert(found[k - 1].end <= found[k].start);
        }
        let head = s.subrange(0, start);
        let old = s.subrange(start, end);
        let tail = spliced(s, found, urls, end, k);
        let next = spliced(s, found, urls, 0, k - 1);
        lemma_spliced_from(s, found, urls, 0, end, k);
        assert(text == s.subrange(0, end) + tail);
        assert(s.subrange(0, end) =~= head + old);
        assert(next == head + written(s, found[k - 1], urls[k - 1]) + tail);
        lemma_applied_back(s, found, urls, k - 1);
        match urls[k - 1] {
            None => {
                assert(next =~= text);
            },
            Some(url) => {
                let change = Change {
                    start: byte_offset(s, start),
                    end: byte_offset(s, end),
                    url,
                };
                let before = changes(in_bytes(s, found), urls, k - 1);
                assert(all == before.push(change));
                assert(all.reverse()[0] == change);
                assert(all.reverse().skip(1) =~= before.reverse());
                lemma_encode_sum(head, old);
                lemma_encode_sum(head + old, tail);
                lemma_encode_sum(head, quoted(url));
                lemma_encode_sum(head + quoted(url), tail);
                assert(s.take(start) =~= head);
                assert(s.take(end) =~= head + old);
                assert(text.take(start) =~= s.take(start));
                assert(text.take(end) =~= s.take(end));
                lemma_boundary(text, start);
                lemma_boundary(text, end);
                assert(replaced(encode_utf8(text), change) =~= encode_utf8(next));
            },
        }
    }
}

/// The new URLs can be put in place of the values that are read of a flake, and the text is then
/// the flake with each of these values replaced.
pub proof fn law_read_values_can_be_replaced(s: Seq<char>, urls: Seq<Option<Seq<char>>>)
    requires
        direct_inputs(s) is Done,
        urls.len() == direct_inputs(s)->Done_0.len(),
    ensures
        rewritable(s, direct_inputs(s)->Done_0, urls),
        with_urls(s, direct_inputs(s)->Done_0, urls) == spliced(
            s,
            scan(s, 0)->Done_0,
            urls,
            0,
            0,
        ),
{
    let found = scan(s, 0)->Done_0;
    let placed = in_bytes(s, found);
    law_spans_fit(s, 0);
    assert forall|i: int, j: int| 0 <= i < j < placed.len() implies (#[trigger] placed[i]).start < (
    #[trigger] placed[j]).start by {
        assert(found[i].end <= found[j].start);
        lemma_offsets_grow(s, found[i].start, found[j].start);
    }
    lemma_changes_ordered(placed, urls);
    lemma_applied_back(s, found, urls, found.len() as int);
    assert(s.skip(0) =~= s);
    encode_utf8_decode_utf8(spliced(s, found, urls, 0, 0));
}

proof fn lemma_no_changes(found: Seq<Assigned>, urls: Seq<Option<Seq<char>>>, n: int)
    requires
        n <= urls.len(),
        forall|i: int| 0 <= i < urls.len() ==> (#[trigger] urls[i]) is None,
    ensures
        changes(found, urls, n) == Seq::<Change>::empty(),
    decreases n,
{
    if n > 0 {
        lemma_no_changes(found, urls, n - 1);
        assert(urls[n - 1] is None);
    }
}

proof fn lemma_nothing_planned(
    config: AppConfig,
    policy: MigrationPolicySelection,
    found: Seq<Assigned>,
    n: int,
)
    requires
        0 <= n <= found.len(),
        forall|i: int|
            0 <= i < found.len() ==> {
                let expected = outcome(
                    config,
                    policy,
                    (#[trigger] found[i]).name,
                    found[i].value,
                );
                expected is Ok && expected->Ok_0.url is None
            },
    ensures
        planned(config, policy, found, n) == Seq::<Rewrite>::empty(),
        first_bad(config, policy, found, n) is None,
    decreases n,
{
    if n > 0 {
        lemma_nothing_planned(config, policy, found, n - 1);
        assert(outcome(config, policy, found[n - 1].name, found[n - 1].value) is Ok);
    }
}

proof fn lemma_no_bad(
    config: AppConfig,
    policy: MigrationPolicySelection,
    found: Seq<Assigned>,
    n: int,
    i: int,
)
    requires
        first_bad(config, policy, found, n) is None,
        0 <= i < n,
    ensures
        outcome(config, policy, found[i].name, found[i].value) is Ok,
    decreases n,
{
    if i < n - 1 {
        lemma_no_bad(config, policy, found, n - 1, i);
    }
}

/// Whether a flake comes to rest once its rewrites are made: the text assigns the same inputs in
/// the same order, none of them is to be rewritten again, and the text stays as it is. An input that
/// was rewritten now has a Git transport; each other input fares as it did before.
pub open spec fn at_rest(
    config: AppConfig,
    policy: MigrationPolicySelection,
    source: Seq<char>,
    found: Seq<Assigned>,
) -> bool {
    let rewritten = with_urls(source, found, new_urls(config, policy, found));
    let again = direct_inputs(rewritten)->Done_0;
    &&& direct_inputs(rewritten) is Done
    &&& revalued(found, new_urls(config, policy, found), again)
    &&& first_bad(config, policy, again, again.len() as int) is None
    &&& planned(config, policy, again, again.len() as int) == Seq::<Rewrite>::empty()
    &&& with_urls(rewritten, again, new_urls(config, policy, again)) == rewritten
    &&& forall|i: int|
        0 <= i < found.len() ==> outcome(
            config,
            policy,
            (#[trigger] again[i]).name,
            again[i].value,
        ) == (if new_urls(config, policy, found)[i] is Some {
            Ok::<Outcome, Seq<char>>(left_alone(DirectInputState::AlreadyGitTransport))
        } else {
            outcome(config, policy, found[i].name, found[i].value)
        })
}

/// Migrating a flake that was migrated changes nothing where every new URL is plain.
pub proof fn law_migration_to_plain_urls_is_idempotent(
    config: AppConfig,
    policy: MigrationPolicySelection,
    source: Seq<char>,
    found: Seq<Assigned>,
)
    requires
        direct_inputs(source) == Scan::Done(found),
        first_bad(config, policy, found, found.len() as int) is None,
        forall|i: int|
            0 <= i < found.len() && (#[trigger] new_urls(config, policy, found)[i]) is Some
                ==> plain(new_urls(config, policy, found)[i]->0),
    ensures
        at_rest(config, policy, source, found),
{
    let urls = new_urls(config, policy, found);
    let places = scan(source, 0)->Done_0;
    assert(found == in_bytes(source, places));
    law_read_values_can_be_replaced(source, urls);
    law_replaced_values_are_read_back(source, places, urls);
    let rewritten = with_urls(source, found, urls);
    let again = direct_inputs(rewritten)->Done_0;
    assert(again == in_bytes(rewritten, scan(rewritten, 0)->Done_0));
    assert forall|i: int| 0 <= i < found.len() implies {
        let expected = outcome(config, policy, (#[trigger] again[i]).name, again[i].value);
        &&& expected is Ok
        &&& expected->Ok_0.url is None
        &&& expected == (if urls[i] is Some {
            Ok::<Outcome, Seq<char>>(left_alone(DirectInputState::AlreadyGitTransport))
        } else {
            outcome(config, policy, found[i].name, found[i].value)
        })
    } by {
        lemma_no_bad(config, policy, found, found.len() as int, i);
        let read = scan(rewritten, 0)->Done_0[i];
        assert(again[i].name == read.name && again[i].value == read.value);
        assert(found[i].name == places[i].name && found[i].value == places[i].value);
        assert(urls[i] == new_url(config, policy, found[i]));
        if urls[i] is Some {
            let parsed = shorthand(found[i].value)->Ok_0;
            let target = outcome(
                config,
                policy,
                found[i].name,
                found[i].value,
            )->Ok_0.target->0;
            law_rewritten_url_uses_git_transport(parsed, target);
        }
    }
    lemma_nothing_planned(config, policy, again, again.len() as int);
    let none = new_urls(config, policy, again);
    assert forall|i: int| 0 <= i < none.len() implies (#[trigger] none[i]) is None by {
        assert(outcome(config, policy, again[i].name, again[i].value) is Ok);
    }
    lemma_no_changes(again, none, again.len() as int);
    encode_utf8_decode_utf8(rewritten);
    assert(revalued(found, urls, again)) by {
        assert forall|m: int| 0 <= m < found.len() implies (#[trigger] again[m]).name
            == found[m].name && again[m].value == new_value(found[m], urls[m]) by {
            let read = scan(rewritten, 0)->Done_0[m];
            assert(again[m].name == read.name && again[m].value == read.value);
        }
    }
}

/// Migrating a flake that was migrated changes nothing, whatever the policy, for every flake of
/// ASCII characters that assigns no value with `${`.
pub proof fn law_migration_is_idempotent(
    config: AppConfig,
    policy: MigrationPolicySelection,
    source: Seq<char>,
    found: Seq<Assigned>,
)
    requires
        ascii(source),
        direct_inputs(source) == Scan::Done(found),
        forall|i: int| 0 <= i < found.len() ==> !holds((#[trigger] found[i]).value, "${"@),
        first_bad(config, policy, found, found.len() as int) is None,
    ensures
        at_rest(config, policy, source, found),
{
    let urls = new_urls(config, policy, found);
    law_ascii_texts_assign_ascii_values(source, 0);
    assert forall|i: int| 0 <= i < found.len() && (#[trigger] urls[i]) is Some implies plain(
        urls[i]->0,
    ) by {
        let value = found[i].value;
        assert(urls[i] == new_url(config, policy, found[i]));
        assert(ascii(scan(source, 0)->Done_0[i].value));
        lemma_plain(value);
        let target = outcome(config, policy, found[i].name, value)->Ok_0.target->0;
        law_plain_shorthand_gives_plain_url(value, target);
    }
    law_migration_to_plain_urls_is_idempotent(config, policy, source, found);
}

// ---------------------------------------------------------------------------
// Projects

/// A flake project: its directory, its flake and its lock file.
#[derive(Debug, Clone, PartialEq, Eq)]
pub struct FlakeProject {
    pub flake_dir: String,
    pub flake_file: String,
    pub lock_file: String,
}

/// The project that a resolved path names: a directory, or a file of the name `flake.nix`.
/// `file_name` and `parent` are the last component of the path and what stands before it.
pub fn load_flake_project(
    canonical: &str,
    is_dir: bool,
    file_name: Option<&str>,
    parent: Option<&str>,
) -> (r: Result<FlakeProject, MigrationError>)
    ensures
        match r {
            Ok(project) => {
                &&& is_dir || (file_name is Some && file_name->0@ == "flake.nix"@)
                &&& project.flake_dir@ == (if is_dir {
                    canonical@
                } else if parent is Some {
                    parent->0@
                } else {
                    "."@
                })
                &&& project.flake_file@ == (if is_dir {
                    joined_path(canonical@, "flake.nix"@)
                } else {
                    canonical@
                })
                &&& project.lock_file@ == joined_path(project.flake_dir@, "flake.lock"@)
            },
            Err(error) => {
                &&& !is_dir
                &&& file_name is None || file_name->0@ != "flake.nix"@
                &&& error is MissingFlake
                &&& error->MissingFlake_0@ == canonical@
            },
        },
{
    if is_dir {
        return Ok(
            FlakeProject {
                flake_dir: canonical.to_owned(),
                flake_file: path::join(canonical, "flake.nix"),
                lock_file: path::join(canonical, "flake.lock"),
            },
        );
    }
    let is_flake = match file_name {
        Some(name) => same(name, "flake.nix"),
        None => false,
    };
    if !is_flake {
        return Err(MigrationError::MissingFlake(canonical.to_owned()));
    }
    let flake_dir = match parent {
        Some(parent) => parent.to_owned(),
        None => ".".to_owned(),
    };
    let lock_file = path::join(&flake_dir, "flake.lock");
    Ok(FlakeProject { flake_dir, flake_file: canonical.to_owned(), lock_file })
}

/// Whether the files of a project are there.
pub fn ensure_project_files(project: &FlakeProject, flake_exists: bool, lock_exists: bool) -> (r:
    Result<(), MigrationError>)
    ensures
        match r {
            Ok(_) => flake_exists && lock_exists,
            Err(MigrationError::MissingFlake(path)) => !flake_exists && path@
                == project.flake_file@,
            Err(MigrationError::MissingLock(path)) => flake_exists && !lock_exists && path@
                == project.lock_file@,
            Err(_) => false,
        },
{
    if !flake_exists {
        Err(MigrationError::MissingFlake(project.flake_file.clone()))
    } else if !lock_exists {
        Err(MigrationError::MissingLock(project.lock_file.clone()))
    } else {
        Ok(())
    }
}

// ---------------------------------------------------------------------------
// Commands

/// How a process ended and what it printed.
#[derive(Debug, Clone, PartialEq, Eq)]
pub struct CommandOutput {
    pub success: bool,
    pub status: Option<i32>,
    pub stdout: String,
    pub stderr: String,
}

/// What a command printed, where it succeeded or ended with the status that is allowed it; and
/// otherwise an error that tells what it said.
pub fn command_result(
    program: &str,
    args: &Vec<String>,
    output: CommandOutput,
    allow_exit_one: bool,
) -> (r: Result<String, MigrationError>)
    ensures
        match r {
            Ok(text) => {
                &&& output.success || (allow_exit_one && output.status == Some(1i32))
                &&& text@ == output.stdout@
            },
            Err(MigrationError::Command { program: p, args: a, status, detail }) => {
                &&& !output.success
                &&& !(allow_exit_one && output.status == Some(1i32))
                &&& p@ == program@
                &&& texts(a@) == texts(args@)
                &&& status == output.status
                &&& detail@ == (if trimmed(output.stderr@).len() > 0 {
                    trimmed(output.stderr@)
                } else {
                    trimmed(output.stdout@)
                })
            },
            Err(_) => false,
        },
{
    let exit_one = match output.status {
        Some(status) => status == 1,
        None => false,
    };
    if output.success || (allow_exit_one && exit_one) {
        return Ok(output.stdout);
    }
    let said = trim(&output.stderr);
    let detail = if said.as_str().is_empty() {
        trim(&output.stdout)
    } else {
        said
    };
    Err(
        MigrationError::Command {
            program: program.to_owned(),
            args: copy_list(args),
            status: output.status,
            detail,
        },
    )
}

/// The changes of the flake and the lock file as one text; what is blank is left out.
pub fn combine_diffs(flake_diff: String, lock_diff: String) -> (r: String)
    ensures
        r@ == (if trimmed(flake_diff@).len() > 0 && trimmed(lock_diff@).len() > 0 {
            flake_diff@ + "\n"@ + lock_diff@
        } else if trimmed(flake_diff@).len() > 0 {
            flake_diff@
        } else if trimmed(lock_diff@).len() > 0 {
            lock_diff@
        } else {
            Seq::empty()
        }),
{
    let flake_blank = is_blank(&flake_diff);
    let lock_blank = is_blank(&lock_diff);
    if !flake_blank && !lock_blank {
        concat3(&flake_diff, "\n", &lock_diff)
    } else if !flake_blank {
        flake_diff
    } else if !lock_blank {
        lock_diff
    } else {
        String::new()
    }
}

// ---------------------------------------------------------------------------
// Inspection

/// Whether what a flake says of its inputs can be told from its text and its lock file: where the
/// text is supported, following the lock file's inputs comes to an end.
pub open spec fn can_inspect(source: Seq<char>, lock: FlakeLock) -> bool {
    direct_inputs(source) is Done ==> graph_settles(lock)
}

/// Whether `error` says why a flake cannot be migrated: the first of an expression that is not
/// supported, a lock file outside the contract, a direct input that the text does not assign, and a
/// shorthand that is not supported.
pub open spec fn inspection_fails(
    config: AppConfig,
    policy: MigrationPolicySelection,
    lock_path: Seq<char>,
    source: Seq<char>,
    lock: FlakeLock,
    error: MigrationError,
) -> bool {
    match direct_inputs(source) {
        Scan::Flawed { name, detail } => unsupported(error, name, detail),
        Scan::Done(found) => if graph_matter(lock) is Flaw {
            invalid_graph(error, lock_path, graph_matter(lock)->Flaw_0)
        } else {
            match first_uncovered(
                lock,
                found,
                lock.input_names(lock.root@).len() as int,
            ) {
                Some(name) => unsupported(
                    error,
                    name,
                    "direct shorthand input is outside the supported literal grammar; expected inputs.<name>.url = \"...\""@,
                ),
                None => match first_bad(config, policy, found, found.len() as int) {
                    Some((name, detail)) => bad_shorthand(error, name, detail),
                    None => false,
                },
            }
        },
    }
}

/// What an inspection of a flake found.
#[derive(Debug, Clone, PartialEq, Eq)]
pub struct MigrationInspection {
    pub plan: RewritePlan,
    pub unresolved_transitive_shorthand: Vec<TransitiveShorthandNode>,
}

/// What is to be done with a flake, and which nodes of its lock file will still use shorthand.
pub fn inspect_migration(
    config: &AppConfig,
    request: &MigrationRequest,
    lock_path: &str,
    flake_source: &str,
    lock: &FlakeLock,
) -> (r: Result<MigrationInspection, MigrationError>)
    requires
        can_inspect(flake_source@, *lock),
    ensures
        match r {
            Ok(inspection) => {
                let found = direct_inputs(flake_source@)->Done_0;
                &&& direct_inputs(flake_source@) is Done
                &&& graph_matter(*lock) is Sound
                &&& plans(*config, request.policy, flake_source@, found, inspection.plan)
                &&& notes_on(
                    *lock,
                    transitive_nodes(*lock, lock.nodes.keys().len() as int),
                    inspection.unresolved_transitive_shorthand@,
                )
                &&& first_uncovered(
                    *lock,
                    found,
                    lock.input_names(lock.root@).len() as int,
                ) is None
            },
            Err(error) => inspection_fails(
                *config,
                request.policy,
                lock_path@,
                flake_source@,
                *lock,
                error,
            ),
        },
{
    let assignments = match parse_direct_input_assignments(flake_source) {
        Ok(assignments) => assignments,
        Err(error) => {
            return Err(error);
        },
    };
    proof {
        let found = all_assigned(assignments@);
        law_read_values_can_be_replaced(flake_source@, new_urls(*config, request.policy, found));
    }
    match lock::ensure_supported_direct_coverage(lock_path, lock, &assignments) {
        Ok(_) => {},
        Err(error) => {
            return Err(error);
        },
    }
    let plan = match build_rewrite_plan(config, request, flake_source, &assignments) {
        Ok(plan) => plan,
        Err(error) => {
            return Err(error);
        },
    };
    match lock::collect_transitive_shorthand(lock_path, lock) {
        Ok(unresolved_transitive_shorthand) => Ok(
            MigrationInspection { plan, unresolved_transitive_shorthand },
        ),
        Err(error) => Err(error),
    }
}

/// The report on an inspection, with the changes that the rewrites would make.
pub fn inspect_report(
    project: &FlakeProject,
    inspection: MigrationInspection,
    preview_diff: String,
) -> (r: MigrationInspectReport)
    ensures
        r.flake_file@ == project.flake_file@,
        r.lock_file@ == project.lock_file@,
        r.direct_inputs == inspection.plan.direct_inputs,
        r.planned_rewrites == inspection.plan.planned_rewrites,
        r.unresolved_transitive_shorthand == inspection.unresolved_transitive_shorthand,
        r.preview_diff == preview_diff,
{
    MigrationInspectReport {
        flake_file: project.flake_file.clone(),
        lock_file: project.lock_file.clone(),
        direct_inputs: inspection.plan.direct_inputs,
        planned_rewrites: inspection.plan.planned_rewrites,
        unresolved_transitive_shorthand: inspection.unresolved_transitive_shorthand,
        preview_diff,
    }
}

// ---------------------------------------------------------------------------
// What options ask for and what becomes of inputs

/// Which transport is chosen. What was asked for the input itself comes before what was asked for
/// its host, that before what was asked for its class, and only where nothing was asked does the
/// one transport that is supported count, where there is only one. Hosts are told apart without
/// regard to case.
pub proof fn law_closest_choice_counts(
    config: AppConfig,
    policy: MigrationPolicySelection,
    name: Seq<char>,
    host: Seq<char>,
    class: Option<MigrationRepoClass>,
)
    ensures
        ({
            let chosen = selected(config, policy, name, host, class);
            let by_input = policy.input_targets@.contains_key(name);
            let by_host = policy.host_targets@.contains_key(lowered(host));
            let by_class = (class == Some(MigrationRepoClass::Public) && policy.class_targets.public
                is Some) || (class == Some(MigrationRepoClass::Private)
                && policy.class_targets.private is Some);
            &&& by_input ==> chosen == Some(policy.input_targets@[name])
            &&& !by_input && by_host ==> chosen == Some(policy.host_targets@[lowered(host)])
            &&& !by_input && !by_host && by_class ==> chosen == (if class == Some(
                MigrationRepoClass::Public,
            ) {
                policy.class_targets.public
            } else {
                policy.class_targets.private
            })
            &&& !by_input && !by_host && !by_class && config.migration.supported_targets@.len()
                == 1 ==> chosen == Some(config.migration.supported_targets@[0])
            &&& !by_input && !by_host && !by_class && config.migration.supported_targets@.len()
                != 1 ==> chosen is None
        }),
        selected(config, policy, name, lowered(host), class) == selected(
            config,
            policy,
            name,
            host,
            class,
        ),
{
    crate::text::law_lowered(host);
}

/// What becomes of an input. A URL of a Git transport and every value that is no shorthand stay as
/// they are; a shorthand that can be read is rewritten with the transport that is chosen for it,
/// and stays, blocked, where none is; one that cannot be read stops the migration.
pub proof fn law_fate_of_inputs(
    config: AppConfig,
    policy: MigrationPolicySelection,
    name: Seq<char>,
    value: Seq<char>,
)
    ensures
        ({
            let r = outcome(config, policy, name, value);
            let git = crate::text::begins(value, "git+https://"@) || crate::text::begins(
                value,
                "git+ssh://"@,
            );
            let short = crate::text::begins(value, "github:"@) || crate::text::begins(
                value,
                "gitlab:"@,
            ) || crate::text::begins(value, "sourcehut:"@);
            &&& git ==> r is Ok && r->Ok_0.state == DirectInputState::AlreadyGitTransport
                && r->Ok_0.url is None && r->Ok_0.target is None
            &&& !git && !short ==> r is Ok && r->Ok_0.state == DirectInputState::OtherLiteral
                && r->Ok_0.url is None && r->Ok_0.target is None
            &&& !git && short ==> (r is Err <==> shorthand(value) is Err)
            &&& !git && short && r is Ok ==> {
                let parsed = shorthand(value)->Ok_0;
                let class = if policy.input_classes@.contains_key(name) {
                    Some(policy.input_classes@[name])
                } else {
                    None
                };
                let chosen = selected(config, policy, name, parsed.host, class);
                &&& r->Ok_0.target == chosen
                &&& r->Ok_0.host == Some(parsed.host)
                &&& chosen is Some ==> r->Ok_0.state == DirectInputState::PlannedRewrite
                    && r->Ok_0.url == Some(git_url(parsed, chosen->0)) && r->Ok_0.reason is None
                &&& chosen is None ==> r->Ok_0.state == DirectInputState::BlockedNoPolicy
                    && r->Ok_0.url is None && r->Ok_0.reason is Some
            }
        }),
{
}

/// An option `name=transport` gives the name that transport; the two transports are known by the
/// schemes of their URLs, and the two classes by their names.
pub proof fn law_options_are_read(name: Seq<char>)
    requires
        !name.contains('='),
    ensures
        target_option(name + seq!['='] + "git+https"@) == Ok::<
            (Seq<char>, MigrationTransport),
            Seq<char>,
        >((name, MigrationTransport::GitHttps)),
        target_option(name + seq!['='] + "git+ssh"@) == Ok::<
            (Seq<char>, MigrationTransport),
            Seq<char>,
        >((name, MigrationTransport::GitSsh)),
        input_class_option(name + seq!['='] + "public"@) == Ok::<
            (Seq<char>, MigrationRepoClass),
            Seq<char>,
        >((name, MigrationRepoClass::Public)),
        input_class_option(name + seq!['='] + "private"@) == Ok::<
            (Seq<char>, MigrationRepoClass),
            Seq<char>,
        >((name, MigrationRepoClass::Private)),
        class_target_option("private"@ + seq!['='] + "git+ssh"@) == Ok::<
            (MigrationRepoClass, MigrationTransport),
            Seq<char>,
        >((MigrationRepoClass::Private, MigrationTransport::GitSsh)),
        class_target_option("public"@ + seq!['='] + "git+https"@) == Ok::<
            (MigrationRepoClass, MigrationTransport),
            Seq<char>,
        >((MigrationRepoClass::Public, MigrationTransport::GitHttps)),
        target_option(name) is Err,
        input_class_option(name) is Err,
        class_target_option(name) is Err,
{
    reveal_strlit("git+https");
    reveal_strlit("git+ssh");
    reveal_strlit("public");
    reveal_strlit("private");
    assert("git+https"@.len() == 9 && "git+ssh"@.len() == 7 && "public"@.len() == 6
        && "private"@.len() == 7);
    crate::text::law_halves(name + seq!['='] + "git+https"@, name, "git+https"@, '=');
    crate::text::law_halves(name + seq!['='] + "git+ssh"@, name, "git+ssh"@, '=');
    crate::text::law_halves(name + seq!['='] + "public"@, name, "public"@, '=');
    crate::text::law_halves(name + seq!['='] + "private"@, name, "private"@, '=');
    crate::text::law_halves("private"@ + seq!['='] + "git+ssh"@, "private"@, "git+ssh"@, '=');
    crate::text::law_halves("public"@ + seq!['='] + "git+https"@, "public"@, "git+https"@, '=');
    crate::text::law_halves(name, name, name, '=');
}

/// Of several options for one name the last counts.
pub proof fn law_last_options_count<T>(
    entries: Seq<String>,
    n: int,
    i: int,
    read: spec_fn(Seq<char>) -> Result<(Seq<char>, T), Seq<char>>,
    name: Seq<char>,
    value: T,
)
    requires
        0 <= i < n <= entries.len(),
        named_options(entries, n, read) is Ok,
        read(entries[i]@) == Ok::<(Seq<char>, T), Seq<char>>((name, value)),
        forall|j: int|
            i < j < n ==> {
                let (other, _) = read((#[trigger] entries[j])@)->Ok_0;
                other != name
            },
    ensures
        named_options(entries, n, read)->Ok_0.contains_key(name),
        named_options(entries, n, read)->Ok_0[name] == value,
    decreases n,
{
    if i < n - 1 {
        law_last_options_count(entries, n - 1, i, read, name, value);
        let (other, _) = read(entries[n - 1]@)->Ok_0;
        assert(other != name);
    }
}

/// Options can be read exactly where each can, and say something only of names that one of them
/// names.
pub proof fn law_readable_options<T>(
    entries: Seq<String>,
    n: int,
    read: spec_fn(Seq<char>) -> Result<(Seq<char>, T), Seq<char>>,
    name: Seq<char>,
)
    requires
        0 <= n <= entries.len(),
    ensures
        named_options(entries, n, read) is Ok <==> forall|i: int|
            0 <= i < n ==> read((#[trigger] entries[i])@) is Ok,
        named_options(entries, n, read) is Ok && named_options(entries, n, read)->Ok_0.contains_key(
            name,
        ) ==> exists|i: int|
            0 <= i < n && {
                let (other, _) = read((#[trigger] entries[i])@)->Ok_0;
                other == name
            },
    decreases n,
{
    if n > 0 {
        law_readable_options(entries, n - 1, read, name);
        if named_options(entries, n, read) is Ok && named_options(
            entries,
            n,
            read,
        )->Ok_0.contains_key(name) {
            let (last, _) = read(entries[n - 1]@)->Ok_0;
            if last != name {
                let i = choose|i: int|
                    0 <= i < n - 1 && {
                        let (other, _) = read((#[trigger] entries[i])@)->Ok_0;
                        other == name
                    };
                assert(0 <= i < n);
            }
        }
    }
}

/// Of several options for one class the last counts, and the other class stays as it is.
pub proof fn law_class_targets(
    targets: ClassTargets,
    class: MigrationRepoClass,
    target: MigrationTransport,
    other: MigrationRepoClass,
)
    ensures
        targets.having(class, target).of(class) == Some(target),
        other != class ==> targets.having(class, target).of(other) == targets.of(other),
        targets.of(MigrationRepoClass::Public) == targets.public,
        targets.of(MigrationRepoClass::Private) == targets.private,
{
}

/// The planned rewrites are exactly those of the inputs that are to be rewritten, each from its
/// value to its new URL.
pub proof fn law_planned_rewrites(
    config: AppConfig,
    policy: MigrationPolicySelection,
    found: Seq<Assigned>,
    n: int,
    rewrite: Rewrite,
)
    requires
        0 <= n <= found.len(),
    ensures
        planned(config, policy, found, n).contains(rewrite) <==> exists|i: int|
            0 <= i < n && is_rewrite(config, policy, #[trigger] found[i], rewrite),
        planned(config, policy, found, n).len() <= n,
    decreases n,
{
    let all = planned(config, policy, found, n);
    if n > 0 {
        law_planned_rewrites(config, policy, found, n - 1, rewrite);
        let before = planned(config, policy, found, n - 1);
        if before.contains(rewrite) {
            let k = choose|k: int| 0 <= k < before.len() && before[k] == rewrite;
            assert(all[k] == rewrite);
        }
        if is_rewrite(config, policy, found[n - 1], rewrite) {
            assert(all[all.len() - 1] == rewrite);
        }
        if all.contains(rewrite) {
            let k = choose|k: int| 0 <= k < all.len() && all[k] == rewrite;
            if k < before.len() {
                assert(before[k] == rewrite);
                assert(before.contains(rewrite));
            } else {
                assert(is_rewrite(config, policy, found[n - 1], rewrite));
            }
        }
    }
}

/// Whether an input is to be rewritten as told.
pub open spec fn is_rewrite(
    config: AppConfig,
    policy: MigrationPolicySelection,
    assigned: Assigned,
    rewrite: Rewrite,
) -> bool {
    let r = outcome(config, policy, assigned.name, assigned.value);
    &&& r is Ok
    &&& r->Ok_0.url == Some(rewrite.after)
    &&& r->Ok_0.target is Some ==> r->Ok_0.target == Some(rewrite.target)
    &&& r->Ok_0.target is Some
    &&& rewrite.name == assigned.name
    &&& rewrite.before == assigned.value
}

/// A migration is stopped by a shorthand exactly where one of the inputs has one that cannot be
/// read.
pub proof fn law_bad_shorthands_stop(
    config: AppConfig,
    policy: MigrationPolicySelection,
    found: Seq<Assigned>,
    n: int,
)
    requires
        0 <= n <= found.len(),
    ensures
        first_bad(config, policy, found, n) is None <==> forall|i: int|
            0 <= i < n ==> outcome(config, policy, (#[trigger] found[i]).name, found[i].value)
                is Ok,
    decreases n,
{
    if n > 0 {
        law_bad_shorthands_stop(config, policy, found, n - 1);
    }
}

/// A change puts the literal of the new URL where the old one stood, and leaves what stands before
/// and behind it.
pub proof fn law_changes_stay_in_their_place(text: Seq<u8>, change: Change)
    requires
        0 <= change.start <= change.end <= text.len(),
    ensures
        ({
            let new = encode_utf8(quoted(change.url));
            let r = replaced(text, change);
            &&& r.take(change.start) == text.take(change.start)
            &&& r.subrange(change.start, change.start + new.len()) == new
            &&& r.skip(change.start + new.len()) == text.skip(change.end)
        }),
{
    let new = encode_utf8(quoted(change.url));
    let r = replaced(text, change);
    assert(r.take(change.start) =~= text.take(change.start));
    assert(r.subrange(change.start, change.start + new.len()) =~= new);
    assert(r.skip(change.start + new.len()) =~= text.skip(change.end));
}

/// A plan tells of every input of a flake, in their order, by its name and what it is assigned. It
/// says why an input is blocked exactly where it is, and what it becomes exactly where it is
/// rewritten. Where nothing is rewritten, the flake stays as it is.
pub proof fn law_plans_tell_of_every_input(
    config: AppConfig,
    policy: MigrationPolicySelection,
    source: Seq<char>,
    found: Seq<Assigned>,
    plan: RewritePlan,
)
    requires
        plans(config, policy, source, found, plan),
    ensures
        plan.direct_inputs@.len() == found.len(),
        forall|i: int|
            0 <= i < found.len() ==> {
                let told = #[trigger] plan.direct_inputs@[i];
                &&& told.input_name@ == found[i].name
                &&& told.original_url@ == found[i].value
                &&& told.blocked_reason is Some <==> told.state == DirectInputState::BlockedNoPolicy
                &&& told.rewritten_url is Some <==> told.state == DirectInputState::PlannedRewrite
                &&& told.selected_target is Some <==> told.state == DirectInputState::PlannedRewrite
                &&& told.shorthand_kind is Some <==> told.state == DirectInputState::PlannedRewrite
                    || told.state == DirectInputState::BlockedNoPolicy
                &&& told.repo_class == (if policy.input_classes@.contains_key(found[i].name) {
                    Some(policy.input_classes@[found[i].name])
                } else {
                    None
                })
            },
        (forall|i: int|
            0 <= i < found.len() ==> (#[trigger] plan.direct_inputs@[i]).rewritten_url is None)
            ==> plan.rewritten_source@ == source,
{
    assert forall|i: int| 0 <= i < found.len() implies reports(
        config,
        policy,
        found[i],
        #[trigger] plan.direct_inputs@[i],
    ) by {}
    if forall|i: int|
        0 <= i < found.len() ==> (#[trigger] plan.direct_inputs@[i]).rewritten_url is None {
        let urls = new_urls(config, policy, found);
        assert forall|i: int| 0 <= i < urls.len() implies (#[trigger] urls[i]) is None by {
            assert(reports(config, policy, found[i], plan.direct_inputs@[i]));
        }
        lemma_no_changes(found, urls, found.len() as int);
        assert(ordered_changes(found, urls) =~= Seq::empty());
        encode_utf8_decode_utf8(source);
    }
}

/// An inspection fails for one cause: an assignment that cannot be read, before a lock file that
/// is not sound, before an input that the lock file uses and the flake does not assign, before a
/// shorthand that cannot be read.
pub proof fn law_causes_of_failed_inspections(
    config: AppConfig,
    policy: MigrationPolicySelection,
    lock_path: Seq<char>,
    source: Seq<char>,
    lock: FlakeLock,
    error: MigrationError,
)
    requires
        inspection_fails(config, policy, lock_path, source, lock, error),
    ensures
        direct_inputs(source) is Flawed ==> error is UnsupportedExpression
            && error->UnsupportedExpression_input_name@ == direct_inputs(source)->Flawed_name,
        error is InvalidLockGraph <==> direct_inputs(source) is Done && graph_matter(lock) is Flaw,
        error is InvalidLockGraph ==> error->InvalidLockGraph_path@ == lock_path,
        error is UnsupportedShorthand ==> direct_inputs(source) is Done && exists|i: int|
            0 <= i < direct_inputs(source)->Done_0.len() && (
            #[trigger] direct_inputs(source)->Done_0[i]).name
                == error->UnsupportedShorthand_input_name@ && outcome(
                config,
                policy,
                direct_inputs(source)->Done_0[i].name,
                direct_inputs(source)->Done_0[i].value,
            ) is Err,
{
    if error is UnsupportedShorthand {
        let found = direct_inputs(source)->Done_0;
        lemma_bad_is_of_an_input(config, policy, found, found.len() as int);
    }
}

proof fn lemma_bad_is_of_an_input(
    config: AppConfig,
    policy: MigrationPolicySelection,
    found: Seq<Assigned>,
    n: int,
)
    requires
        0 <= n <= found.len(),
        first_bad(config, policy, found, n) is Some,
    ensures
        ({
            let (name, detail) = first_bad(config, policy, found, n)->0;
            exists|i: int|
                0 <= i < n && (#[trigger] found[i]).name == name && outcome(
                    config,
                    policy,
                    found[i].name,
                    found[i].value,
                ) == Err::<Outcome, Seq<char>>(detail)
        }),
    decreases n,
{
    if n > 0 {
        if first_bad(config, policy, found, n - 1) is Some {
            lemma_bad_is_of_an_input(config, policy, found, n - 1);
        } else {
            assert(found[n - 1] == found[n - 1]);
        }
    }
}

/// The versions of Nix that a relock was validated with are four.
pub proof fn law_validated_versions()
    ensures
        validated_nix_versions().len() == 4,
        validated_nix_versions().contains("nix (Determinate Nix 3.0.0) 2.26.3"@),
        validated_nix_versions().contains("nix (Nix) 2.28.5"@),
        validated_nix_versions().contains("nix (Nix) 2.30.3+2"@),
        validated_nix_versions().contains("nix (Nix) 2.31.3"@),
{
    let all = validated_nix_versions();
    assert(all[0] == "nix (Determinate Nix 3.0.0) 2.26.3"@);
    assert(all[1] == "nix (Nix) 2.28.5"@);
    assert(all[2] == "nix (Nix) 2.30.3+2"@);
    assert(all[3] == "nix (Nix) 2.31.3"@);
}

} // verus!
