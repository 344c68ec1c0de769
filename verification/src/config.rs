//! The daemon's configuration and the repository descriptors.

use crate::order::{self, sorted, text_le, Ordered};
use crate::path;
use crate::text::{
    after, all_digits, chars_of, concat2, concat3, concat4, decimal, digit, is_digit, number,
    number_in_u64, parse_digits, render_u64, run, same, string_of, strip_prefix,
};
use vstd::prelude::*;

verus! {

#[derive(Debug, Clone)]
pub struct AppConfig {
    pub listen: ListenConfig,
    pub paths: PathsConfig,
    pub reconcile: ReconcileConfig,
    pub policy: PolicyConfig,
    pub retention: RetentionConfig,
    pub migration: MigrationConfig,
    pub deployment: DeploymentProfile,
    pub auth_profiles: Vec<AuthProfileEntry>,
}

/// Why the configuration or a repository descriptor could not be loaded.
#[derive(Debug, Clone)]
pub enum ConfigError {
    Read { path: String, error: String },
    ReadDir { path: String, error: String },
    ReadDirEntry { path: String, error: String },
    Parse { path: String, error: String },
}

impl ConfigError {
    pub open spec fn message_text(self) -> Seq<char> {
        match self {
            ConfigError::Read { path, error } => "failed to read "@ + path@ + ": "@ + error@,
            ConfigError::ReadDir { path, error } => "failed to read directory "@ + path@ + ": "@
                + error@,
            ConfigError::ReadDirEntry { path, error } => "failed to read directory entry under "@
                + path@ + ": "@ + error@,
            ConfigError::Parse { path, error } => "failed to parse TOML "@ + path@ + ": "@ + error@,
        }
    }

    /// The error in words.
    pub fn message(&self) -> (r: String)
        ensures
            r@ == self.message_text(),
    {
        match self {
            ConfigError::Read { path, error } => concat4("failed to read ", path, ": ", error),
            ConfigError::ReadDir { path, error } => concat4(
                "failed to read directory ",
                path,
                ": ",
                error,
            ),
            ConfigError::ReadDirEntry { path, error } => concat4(
                "failed to read directory entry under ",
                path,
                ": ",
                error,
            ),
            ConfigError::Parse { path, error } => concat4(
                "failed to parse TOML ",
                path,
                ": ",
                error,
            ),
        }
    }
}

#[derive(Debug, Clone)]
pub struct ListenConfig {
    pub ssh: String,
    pub https: Option<String>,
    pub enable_http_read: bool,
    pub enable_http_write: bool,
}

#[derive(Debug, Clone)]
pub struct PathsConfig {
    pub state_root: String,
    pub repo_root: String,
    pub repo_config_root: String,
}

#[derive(Debug, Clone)]
pub struct ReconcileConfig {
    pub on_push: bool,
    pub manual_enabled: bool,
    pub periodic_enabled: bool,
    pub worker_mode: WorkerMode,
    pub lock_timeout_ms: u64,
}

#[derive(Debug, Clone, Copy, PartialEq, Eq, Structural)]
pub enum WorkerMode {
    ShortLived,
}

#[derive(Debug, Clone)]
pub struct PolicyConfig {
    pub default_repo_mode: RepositoryMode,
    pub default_refresh: FreshnessPolicy,
    pub negative_cache_ttl: HumanDuration,
    pub default_push_ack: PushAckPolicy,
}

#[derive(Debug, Clone)]
pub struct RetentionConfig {
    pub maintenance_interval: HumanDuration,
    pub cache_idle_ttl: HumanDuration,
    pub terminal_run_ttl: HumanDuration,
    pub terminal_run_keep_count: usize,
    pub authoritative_reflog_ttl: HumanDuration,
    pub authoritative_prune_ttl: HumanDuration,
}

#[derive(Debug, Clone)]
pub struct MigrationConfig {
    pub supported_targets: Vec<MigrationTransport>,
    pub refuse_dirty_worktree: bool,
    pub targeted_relock_mode: TargetedRelockMode,
}

#[derive(Debug, Clone)]
pub struct DeploymentProfile {
    pub platform: SupportedPlatform,
    pub service_manager: ServiceManager,
    pub service_label: String,
    pub git_only_command_mode: GitOnlyCommandMode,
    pub forced_command_wrapper: String,
    pub disable_forwarding: bool,
    pub runtime_env_file: String,
    /// The keys that the runtime environment file must hold; none by default.
    pub required_secret_keys: Vec<String>,
    pub allowed_git_services: Vec<GitService>,
    pub supported_filesystems: Vec<String>,
}

/// A named way to authenticate against an upstream.
#[derive(Debug, Clone)]
pub struct AuthProfileEntry {
    pub name: String,
    pub profile: AuthProfile,
}

#[derive(Debug, Clone)]
pub struct AuthProfile {
    pub kind: AuthProfileKind,
    pub secret_ref: String,
}

#[derive(Debug, Clone, Copy, PartialEq, Eq, Structural)]
pub enum AuthProfileKind {
    SshKey,
    HttpsToken,
}

#[derive(Debug, Clone)]
pub struct RepositoryDescriptor {
    pub repo_id: String,
    pub canonical_identity: String,
    pub repo_path: String,
    pub mode: RepositoryMode,
    pub lifecycle: RepositoryLifecycle,
    pub authority_model: AuthorityModel,
    pub tracking_refs: TrackingRefPlacement,
    pub refresh: FreshnessPolicy,
    pub push_ack: PushAckPolicy,
    pub reconcile_policy: ReconcilePolicy,
    pub exported_refs: Vec<String>,
    pub read_upstreams: Vec<ReadUpstream>,
    pub write_upstreams: Vec<WriteUpstream>,
}

#[derive(Debug, Clone)]
pub struct ReadUpstream {
    pub name: String,
    pub url: String,
    /// The profile to authenticate with; `None` leaves it to the process's environment.
    pub auth_profile: Option<String>,
}

#[derive(Debug, Clone)]
pub struct WriteUpstream {
    pub name: String,
    pub url: String,
    /// The profile to authenticate with; `None` leaves it to the process's environment.
    pub auth_profile: Option<String>,
    pub require_atomic: bool,
}

#[derive(Debug, Clone, Copy, PartialEq, Eq, Structural)]
pub enum RepositoryMode {
    CacheOnly,
    Authoritative,
}

#[derive(Debug, Clone, Copy, PartialEq, Eq, Structural)]
pub enum RepositoryLifecycle {
    Provisioning,
    Ready,
    Disabled,
}

/// The name of a mode.
pub open spec fn mode_text(mode: RepositoryMode) -> Seq<char> {
    match mode {
        RepositoryMode::CacheOnly => "CacheOnly"@,
        RepositoryMode::Authoritative => "Authoritative"@,
    }
}

/// The name of a mode.
pub fn mode_name(mode: RepositoryMode) -> (r: &'static str)
    ensures
        r@ == mode_text(mode),
{
    match mode {
        RepositoryMode::CacheOnly => "CacheOnly",
        RepositoryMode::Authoritative => "Authoritative",
    }
}

/// The name of a lifecycle.
pub open spec fn lifecycle_text(lifecycle: RepositoryLifecycle) -> Seq<char> {
    match lifecycle {
        RepositoryLifecycle::Provisioning => "Provisioning"@,
        RepositoryLifecycle::Ready => "Ready"@,
        RepositoryLifecycle::Disabled => "Disabled"@,
    }
}

/// The name of a lifecycle.
pub fn lifecycle_name(lifecycle: RepositoryLifecycle) -> (r: &'static str)
    ensures
        r@ == lifecycle_text(lifecycle),
{
    match lifecycle {
        RepositoryLifecycle::Provisioning => "Provisioning",
        RepositoryLifecycle::Ready => "Ready",
        RepositoryLifecycle::Disabled => "Disabled",
    }
}

#[derive(Debug, Clone, Copy, PartialEq, Eq, Structural)]
pub enum AuthorityModel {
    UpstreamSource,
    RelayAuthoritative,
}

#[derive(Debug, Clone, Copy, PartialEq, Eq, Structural)]
pub enum TrackingRefPlacement {
    SameRepoHidden,
}

#[derive(Debug, Clone, Copy, PartialEq, Eq, Structural)]
pub enum MigrationTransport {
    GitHttps,
    GitSsh,
}

#[derive(Debug, Clone, Copy, PartialEq, Eq, Structural)]
pub enum TargetedRelockMode {
    ValidatedOnly,
}

#[derive(Debug, Clone, Copy, PartialEq, Eq, Structural)]
pub enum SupportedPlatform {
    Macos,
    Linux,
}

#[derive(Debug, Clone, Copy, PartialEq, Eq, Structural)]
pub enum ServiceManager {
    Launchd,
    Systemd,
}

#[derive(Debug, Clone, Copy, PartialEq, Eq, Structural)]
pub enum GitOnlyCommandMode {
    OpensshForceCommand,
}

#[derive(Debug, Clone, Copy, PartialEq, Eq, PartialOrd, Ord, Structural)]
pub enum GitService {
    GitUploadPack,
    GitReceivePack,
}

// ---------------------------------------------------------------------------
// Durations

/// A length of time in whole seconds.
#[derive(Debug, Clone, Copy, PartialEq, Eq, Structural)]
pub struct Seconds(pub u64);

impl Seconds {
    pub fn as_secs(self) -> (r: u64)
        ensures
            r == self.0,
    {
        self.0
    }

    pub fn as_millis(self) -> (r: u128)
        ensures
            r == self.0 * 1000,
    {
        self.0 as u128 * 1000
    }
}

/// A length of time written for people: a number with the unit `s`, `m` or `h`.
#[derive(Debug, Clone, Copy, PartialEq, Eq, Structural)]
pub struct HumanDuration(pub Seconds);

#[derive(Debug, Clone)]
pub enum ParseHumanDurationError {
    MissingSuffix,
    InvalidNumber(String),
    UnsupportedSuffix(String),
}

impl ParseHumanDurationError {
    pub open spec fn message_text(self) -> Seq<char> {
        match self {
            ParseHumanDurationError::MissingSuffix => "duration is missing a unit suffix"@,
            ParseHumanDurationError::InvalidNumber(value) => "invalid duration number in "@
                + value@,
            ParseHumanDurationError::UnsupportedSuffix(suffix) => "unsupported duration suffix "@
                + suffix@ + "; expected s, m, or h"@,
        }
    }

    /// The error in words.
    pub fn message(&self) -> (r: String)
        ensures
            r@ == self.message_text(),
    {
        match self {
            ParseHumanDurationError::MissingSuffix =>
                "duration is missing a unit suffix".to_owned(),
            ParseHumanDurationError::InvalidNumber(value) => concat2(
                "invalid duration number in ",
                value,
            ),
            ParseHumanDurationError::UnsupportedSuffix(suffix) => concat3(
                "unsupported duration suffix ",
                suffix,
                "; expected s, m, or h",
            ),
        }
    }
}

/// The decimal digits.
pub open spec fn digits() -> spec_fn(char) -> bool {
    |c: char| is_digit(c)
}

/// The digits that a duration starts with.
pub open spec fn duration_number(s: Seq<char>) -> Seq<char> {
    s.take(run(s, digits()) as int)
}

/// What follows the digits that a duration starts with.
pub open spec fn duration_unit(s: Seq<char>) -> Seq<char> {
    s.skip(run(s, digits()) as int)
}

/// How many seconds a unit stands for.
pub open spec fn unit_seconds(unit: Seq<char>) -> Option<nat> {
    if unit == seq!['s'] {
        Some(1)
    } else if unit == seq!['m'] {
        Some(60)
    } else if unit == seq!['h'] {
        Some(3600)
    } else {
        None
    }
}

/// The seconds that a written duration stands for; those beyond 64 bits count as the largest.
pub open spec fn duration_in(s: Seq<char>) -> Option<u64> {
    match (number_in_u64(duration_number(s)), unit_seconds(duration_unit(s))) {
        (Some(n), Some(scale)) => Some(
            if n * scale <= u64::MAX {
                (n * scale) as u64
            } else {
                u64::MAX
            },
        ),
        _ => None,
    }
}

/// How a duration is written: in the largest unit that holds it exactly.
pub open spec fn duration_text(seconds: nat) -> Seq<char> {
    if seconds == 0 {
        seq!['0', 's']
    } else if seconds % 3600 == 0 {
        decimal(seconds / 3600).push('h')
    } else if seconds % 60 == 0 {
        decimal(seconds / 60).push('m')
    } else {
        decimal(seconds).push('s')
    }
}

impl HumanDuration {
    pub fn as_duration(self) -> (r: Seconds)
        ensures
            r == self.0,
    {
        self.0
    }

    /// The duration as text.
    pub fn to_string(&self) -> (r: String)
        ensures
            r@ == duration_text(self.0.0 as nat),
    {
        let seconds = self.0.as_secs();
        if seconds == 0 {
            proof {
                reveal_strlit("0s");
                assert("0s"@ =~= seq!['0', 's']);
            }
            return "0s".to_owned();
        }
        let unit: char;
        let quantity: u64;
        if seconds % 3600 == 0 {
            unit = 'h';
            quantity = seconds / 3600;
        } else if seconds % 60 == 0 {
            unit = 'm';
            quantity = seconds / 60;
        } else {
            unit = 's';
            quantity = seconds;
        }
        let mut out = render_u64(quantity);
        out.push(unit);
        out
    }

    /// The duration that a text stands for.
    pub fn from_str(value: &str) -> (r: Result<HumanDuration, ParseHumanDurationError>)
        ensures
            match r {
                Ok(d) => duration_in(value@) == Some(d.0.0),
                Err(ParseHumanDurationError::MissingSuffix) => all_digits(value@),
                Err(ParseHumanDurationError::InvalidNumber(v)) => {
                    &&& !all_digits(value@)
                    &&& number_in_u64(duration_number(value@)) is None
                    &&& v@ == value@
                },
                Err(ParseHumanDurationError::UnsupportedSuffix(v)) => {
                    &&& !all_digits(value@)
                    &&& number_in_u64(duration_number(value@)) is Some
                    &&& unit_seconds(duration_unit(value@)) is None
                    &&& v@ == duration_unit(value@)
                },
            },
    {
        let chars = chars_of(value);
        let ghost p = digits();
        let mut i: usize = 0;
        while i < chars.len() && digit(chars[i])
            invariant
                i <= chars@.len(),
                chars@ == value@,
                p == digits(),
                forall|j: int| 0 <= j < i ==> p(#[trigger] chars@[j]),
            decreases chars@.len() - i,
        {
            i += 1;
        }
        proof {
            crate::text::lemma_run_is(value@, p, i as nat);
            assert forall|j: int| 0 <= j < i implies is_digit(#[trigger] value@[j]) by {
                assert(p(value@[j]));
            }
        }
        if i == chars.len() {
            return Err(ParseHumanDurationError::MissingSuffix);
        }
        proof {
            assert(!is_digit(value@[i as int]));
            let head = chars@.subrange(0, i as int);
            assert(head =~= duration_number(value@));
            assert forall|j: int| 0 <= j < head.len() implies is_digit(#[trigger] head[j]) by {
                assert(is_digit(value@[j]));
            }
        }
        let quantity = match parse_digits(&chars, 0, i) {
            Some(n) => n,
            None => {
                return Err(ParseHumanDurationError::InvalidNumber(value.to_owned()));
            },
        };
        let suffix = string_of(&chars, i, chars.len());
        proof {
            assert(suffix@ =~= duration_unit(value@));
            reveal_strlit("s");
            reveal_strlit("m");
            reveal_strlit("h");
            assert("s"@ =~= seq!['s']);
            assert("m"@ =~= seq!['m']);
            assert("h"@ =~= seq!['h']);
            assert(seq!['s'][0] != seq!['m'][0]);
            assert(seq!['s'][0] != seq!['h'][0]);
            assert(seq!['m'][0] != seq!['h'][0]);
        }
        let scale: u64 = if same(&suffix, "s") {
            1
        } else if same(&suffix, "m") {
            60
        } else if same(&suffix, "h") {
            3600
        } else {
            return Err(ParseHumanDurationError::UnsupportedSuffix(suffix));
        };
        let total: u64 = match quantity.checked_mul(scale) {
            Some(t) => t,
            None => u64::MAX,
        };
        Ok(HumanDuration(Seconds(total)))
    }
}

/// Writing a duration and reading it back gives the same duration.
pub proof fn law_duration_round_trip(seconds: u64)
    ensures
        duration_in(duration_text(seconds as nat)) == Some(seconds),
{
    let n = seconds as nat;
    let (quantity, unit): (nat, char) = if n == 0 {
        (0, 's')
    } else if n % 3600 == 0 {
        (n / 3600, 'h')
    } else if n % 60 == 0 {
        (n / 60, 'm')
    } else {
        (n, 's')
    };
    let s = duration_text(n);
    let head = decimal(quantity);
    assert(s =~= head.push(unit));
    crate::text::lemma_decimal_number(quantity);
    let p = digits();
    assert forall|j: int| 0 <= j < head.len() implies p(#[trigger] s[j]) by {
        assert(is_digit(head[j]));
    }
    crate::text::lemma_run_is(s, p, head.len());
    assert(duration_number(s) =~= head);
    assert(duration_unit(s) =~= seq![unit]);
    assert(seq!['s'][0] != seq!['m'][0]);
    assert(seq!['s'][0] != seq!['h'][0]);
    assert(seq!['m'][0] != seq!['h'][0]);
    assert(number_in_u64(duration_number(s)) == Some(quantity as u64));
    let scale: nat = if unit == 's' {
        1
    } else if unit == 'm' {
        60
    } else {
        3600
    };
    assert(unit_seconds(seq![unit]) == Some(scale));
    assert(quantity * scale == n);
}

impl RetentionConfig {
    /// The retention limits that hold where the configuration sets none: 24 hours between
    /// sweeps, caches idle for 14 days, 20 terminal records and those of the last 30 days,
    /// reflogs of 30 days and unreachable objects of 7 days.
    pub open spec fn is_default(self) -> bool {
        &&& self.maintenance_interval == HumanDuration(Seconds(86400))
        &&& self.cache_idle_ttl == HumanDuration(Seconds(1209600))
        &&& self.terminal_run_ttl == HumanDuration(Seconds(2592000))
        &&& self.terminal_run_keep_count == 20
        &&& self.authoritative_reflog_ttl == HumanDuration(Seconds(2592000))
        &&& self.authoritative_prune_ttl == HumanDuration(Seconds(604800))
    }
}

impl Default for RetentionConfig {
    fn default() -> (r: Self)
        ensures
            r.is_default(),
    {
        RetentionConfig {
            maintenance_interval: HumanDuration(Seconds(86400)),
            cache_idle_ttl: HumanDuration(Seconds(1209600)),
            terminal_run_ttl: HumanDuration(Seconds(2592000)),
            terminal_run_keep_count: 20,
            authoritative_reflog_ttl: HumanDuration(Seconds(2592000)),
            authoritative_prune_ttl: HumanDuration(Seconds(604800)),
        }
    }
}

// ---------------------------------------------------------------------------
// Policies

#[derive(Debug, Clone, Copy, PartialEq, Eq, Structural)]
pub enum ReconcilePolicy {
    OnPushManual,
}

#[derive(Debug, Clone, Copy, PartialEq, Eq, Structural)]
pub enum PushAckPolicy {
    LocalCommit,
}

#[derive(Debug, Clone, Copy, PartialEq, Eq, Structural)]
pub enum FreshnessPolicy {
    AuthoritativeLocal,
    AlwaysRefresh,
    ManualOnly,
    StaleIfError,
    Ttl(HumanDuration),
}

/// A text that names none of the values of an enumeration.
#[derive(Debug, Clone)]
pub struct ParseEnumError {
    pub kind: &'static str,
    pub value: String,
    pub expected: String,
}

impl ParseEnumError {
    /// The error for a `value` of the given kind where one of `expected` was due.
    pub open spec fn says(self, kind: Seq<char>, value: Seq<char>, expected: Seq<char>) -> bool {
        self.kind@ == kind && self.value@ == value && self.expected@ == expected
    }

    fn new(kind: &'static str, value: &str, expected: &str) -> (r: ParseEnumError)
        ensures
            r.says(kind@, value@, expected@),
    {
        ParseEnumError { kind, value: value.to_owned(), expected: expected.to_owned() }
    }

    /// The error in words.
    pub fn message(&self) -> (r: String)
        ensures
            r@ == "invalid "@ + self.kind@ + " "@ + self.value@ + "; expected one of: "@
                + self.expected@,
    {
        let head = concat4("invalid ", self.kind, " ", &self.value);
        concat3(&head, "; expected one of: ", &self.expected)
    }
}

impl ReconcilePolicy {
    /// The policy as text.
    pub fn to_string(&self) -> (r: String)
        ensures
            r@ == "on-push+manual"@,
    {
        "on-push+manual".to_owned()
    }

    /// The policy that a text names.
    pub fn from_str(value: &str) -> (r: Result<ReconcilePolicy, ParseEnumError>)
        ensures
            r is Ok <==> value@ == "on-push+manual"@,
            r matches Err(e) ==> e.says("reconcile policy"@, value@, "on-push+manual"@),
    {
        if same(value, "on-push+manual") {
            Ok(ReconcilePolicy::OnPushManual)
        } else {
            Err(ParseEnumError::new("reconcile policy", value, "on-push+manual"))
        }
    }
}

impl PushAckPolicy {
    /// The policy as text.
    pub fn to_string(&self) -> (r: String)
        ensures
            r@ == "local-commit"@,
    {
        "local-commit".to_owned()
    }

    /// The policy that a text names.
    pub fn from_str(value: &str) -> (r: Result<PushAckPolicy, ParseEnumError>)
        ensures
            r is Ok <==> value@ == "local-commit"@,
            r matches Err(e) ==> e.says("push acknowledgement policy"@, value@, "local-commit"@),
    {
        if same(value, "local-commit") {
            Ok(PushAckPolicy::LocalCommit)
        } else {
            Err(ParseEnumError::new("push acknowledgement policy", value, "local-commit"))
        }
    }
}

/// How a freshness policy is written.
pub open spec fn freshness_text(policy: FreshnessPolicy) -> Seq<char> {
    match policy {
        FreshnessPolicy::AuthoritativeLocal => "authoritative-local"@,
        FreshnessPolicy::AlwaysRefresh => "always-refresh"@,
        FreshnessPolicy::ManualOnly => "manual-only"@,
        FreshnessPolicy::StaleIfError => "stale-if-error"@,
        FreshnessPolicy::Ttl(d) => "ttl:"@ + duration_text(d.0.0 as nat),
    }
}

/// The freshness policy that a text names.
pub open spec fn freshness_in(s: Seq<char>) -> Option<FreshnessPolicy> {
    if s == "authoritative-local"@ {
        Some(FreshnessPolicy::AuthoritativeLocal)
    } else if s == "always-refresh"@ {
        Some(FreshnessPolicy::AlwaysRefresh)
    } else if s == "manual-only"@ {
        Some(FreshnessPolicy::ManualOnly)
    } else if s == "stale-if-error"@ {
        Some(FreshnessPolicy::StaleIfError)
    } else {
        match after(s, "ttl:"@) {
            Some(rest) => match duration_in(rest) {
                Some(seconds) => Some(FreshnessPolicy::Ttl(HumanDuration(Seconds(seconds)))),
                None => None,
            },
            None => None,
        }
    }
}

impl FreshnessPolicy {
    /// The policy as text.
    pub fn to_string(&self) -> (r: String)
        ensures
            r@ == freshness_text(*self),
    {
        match self {
            FreshnessPolicy::AuthoritativeLocal => "authoritative-local".to_owned(),
            FreshnessPolicy::AlwaysRefresh => "always-refresh".to_owned(),
            FreshnessPolicy::ManualOnly => "manual-only".to_owned(),
            FreshnessPolicy::StaleIfError => "stale-if-error".to_owned(),
            FreshnessPolicy::Ttl(d) => concat2("ttl:", &d.to_string()),
        }
    }

    /// The policy that a text names; the error of a malformed `ttl:` quotes what follows it.
    pub fn from_str(value: &str) -> (r: Result<FreshnessPolicy, ParseEnumError>)
        ensures
            match r {
                Ok(policy) => freshness_in(value@) == Some(policy),
                Err(e) => {
                    &&& freshness_in(value@) is None
                    &&& e.says(
                        "freshness policy"@,
                        match after(value@, "ttl:"@) {
                            Some(rest) => rest,
                            None => value@,
                        },
                        "authoritative-local, always-refresh, manual-only, stale-if-error, ttl:<duration>"@,
                    )
                },
            },
    {
        if same(value, "authoritative-local") {
            return Ok(FreshnessPolicy::AuthoritativeLocal);
        }
        if same(value, "always-refresh") {
            return Ok(FreshnessPolicy::AlwaysRefresh);
        }
        if same(value, "manual-only") {
            return Ok(FreshnessPolicy::ManualOnly);
        }
        if same(value, "stale-if-error") {
            return Ok(FreshnessPolicy::StaleIfError);
        }
        let expected = "authoritative-local, always-refresh, manual-only, stale-if-error, ttl:<duration>";
        match strip_prefix(value, "ttl:") {
            Some(rest) => match HumanDuration::from_str(&rest) {
                Ok(duration) => Ok(FreshnessPolicy::Ttl(duration)),
                Err(_) => {
                    proof {
                        lemma_unreadable_duration(rest@);
                    }
                    Err(ParseEnumError::new("freshness policy", &rest, expected))
                },
            },
            None => Err(ParseEnumError::new("freshness policy", value, expected)),
        }
    }
}

/// A text of digits alone has no unit, so it is no duration.
proof fn lemma_unreadable_duration(s: Seq<char>)
    ensures
        all_digits(s) ==> duration_in(s) is None,
{
    if all_digits(s) {
        let p = digits();
        assert forall|j: int| 0 <= j < s.len() implies p(#[trigger] s[j]) by {
            assert(is_digit(s[j]));
        }
        crate::text::lemma_run_is(s, p, s.len());
        assert(duration_unit(s).len() == 0);
    }
}

/// Writing a freshness policy and reading it back gives the same policy.
pub proof fn law_freshness_round_trip(policy: FreshnessPolicy)
    ensures
        freshness_in(freshness_text(policy)) == Some(policy),
{
    reveal_strlit("authoritative-local");
    reveal_strlit("always-refresh");
    reveal_strlit("manual-only");
    reveal_strlit("stale-if-error");
    reveal_strlit("ttl:");
    assert("authoritative-local"@[1] != "always-refresh"@[1]);
    assert("authoritative-local"@[0] != "manual-only"@[0]);
    assert("authoritative-local"@[0] != "stale-if-error"@[0]);
    assert("always-refresh"@[0] != "manual-only"@[0]);
    assert("always-refresh"@[0] != "stale-if-error"@[0]);
    assert("manual-only"@[0] != "stale-if-error"@[0]);
    if let FreshnessPolicy::Ttl(d) = policy {
        let body = duration_text(d.0.0 as nat);
        let s = "ttl:"@ + body;
        assert(s[0] == 't');
        assert(s.take(4) =~= "ttl:"@);
        assert(s.skip(4) =~= body);
        law_duration_round_trip(d.0.0);
    }
}

// ---------------------------------------------------------------------------
// Descriptor files

impl Ordered for RepositoryDescriptor {
    open spec fn le(&self, other: &Self) -> bool {
        text_le(self.repo_id@, other.repo_id@)
    }

    proof fn total(a: &Self, b: &Self) {
        order::lemma_text_le_total(a.repo_id@, b.repo_id@);
    }

    proof fn transitive(a: &Self, b: &Self, c: &Self) {
        order::lemma_text_le_trans(a.repo_id@, b.repo_id@, c.repo_id@);
    }

    fn not_after(&self, other: &Self) -> (r: bool) {
        order::not_after(&self.repo_id, &other.repo_id)
    }
}

/// Whether a file in the descriptor directory holds a descriptor: its extension is `toml`.
pub fn is_descriptor_file(file: &str) -> (r: bool)
    ensures
        r == (path::file_extension(file@) == Some("toml"@)),
{
    path::has_extension(file, "toml")
}

/// The descriptors of a directory in the order of their repository ids, whatever the order in
/// which the directory was read.
pub fn sort_repository_descriptors(descriptors: Vec<RepositoryDescriptor>) -> (r: Vec<
    RepositoryDescriptor,
>)
    ensures
        r@ == sorted(descriptors@),
        r@.to_multiset() =~= descriptors@.to_multiset(),
        forall|i: int, j: int|
            0 <= i < j < r@.len() ==> text_le(
                (#[trigger] r@[i]).repo_id@,
                (#[trigger] r@[j]).repo_id@,
            ),
{
    order::sort(descriptors)
}

/// A duration is read as a number of seconds, minutes or hours: so many of them as the digits say,
/// and the longest there is where they are too many. Without a unit, or with another, it is none.
pub proof fn law_durations_are_read(n: u64)
    ensures
        duration_in(decimal(n as nat).push('s')) == Some(n),
        n * 60 <= u64::MAX ==> duration_in(decimal(n as nat).push('m')) == Some((n * 60) as u64),
        n * 3600 <= u64::MAX ==> duration_in(decimal(n as nat).push('h')) == Some(
            (n * 3600) as u64,
        ),
        n * 3600 > u64::MAX ==> duration_in(decimal(n as nat).push('h')) == Some(u64::MAX),
        duration_in(decimal(n as nat)) is None,
        duration_in(decimal(n as nat).push('d')) is None,
        duration_in(seq!['s']) is None,
{
    let head = decimal(n as nat);
    crate::text::lemma_decimal_number(n as nat);
    lemma_duration_parts(head, seq!['s']);
    lemma_duration_parts(head, seq!['m']);
    lemma_duration_parts(head, seq!['h']);
    lemma_duration_parts(head, seq!['d']);
    lemma_duration_parts(head, Seq::empty());
    lemma_duration_parts(Seq::empty(), seq!['s']);
    assert(head + Seq::<char>::empty() =~= head);
    assert(Seq::<char>::empty() + seq!['s'] =~= seq!['s']);
    assert(head.push('s') =~= head + seq!['s']);
    assert(head.push('m') =~= head + seq!['m']);
    assert(head.push('h') =~= head + seq!['h']);
    assert(head.push('d') =~= head + seq!['d']);
    assert(seq!['s'][0] == 's' && seq!['m'][0] == 'm' && seq!['h'][0] == 'h' && seq!['d'][0]
        == 'd');
    assert(Seq::<char>::empty().len() != seq!['s'].len());
    assert(unit_seconds(seq!['s']) == Some(1nat));
    assert(unit_seconds(seq!['m']) == Some(60nat));
    assert(unit_seconds(seq!['h']) == Some(3600nat));
    assert(number_in_u64(head) == Some(n));
    assert(n * 1nat == n);
}

proof fn lemma_duration_parts(number: Seq<char>, unit: Seq<char>)
    requires
        crate::text::all_digits(number),
        unit.len() > 0 ==> !is_digit(unit[0]),
    ensures
        duration_number(number + unit) == number,
        duration_unit(number + unit) == unit,
{
    let s = number + unit;
    let p = digits();
    assert forall|j: int| 0 <= j < number.len() implies p(#[trigger] s[j]) by {
        assert(is_digit(number[j]));
    }
    if unit.len() > 0 {
        assert(s[number.len() as int] == unit[0]);
    }
    crate::text::lemma_run_is(s, p, number.len());
    assert(s.take(number.len() as int) =~= number);
    assert(s.skip(number.len() as int) =~= unit);
}

/// The names of the freshness policies; one with a time to live is written with it, and is read as
/// the policy with the time that is written.
pub proof fn law_freshness_names(seconds: u64)
    ensures
        freshness_text(FreshnessPolicy::AuthoritativeLocal) == "authoritative-local"@,
        freshness_text(FreshnessPolicy::AlwaysRefresh) == "always-refresh"@,
        freshness_text(FreshnessPolicy::ManualOnly) == "manual-only"@,
        freshness_text(FreshnessPolicy::StaleIfError) == "stale-if-error"@,
        freshness_in("ttl:"@ + decimal(seconds as nat).push('s')) == Some(
            FreshnessPolicy::Ttl(HumanDuration(Seconds(seconds))),
        ),
{
    reveal_strlit("authoritative-local");
    reveal_strlit("always-refresh");
    reveal_strlit("manual-only");
    reveal_strlit("stale-if-error");
    reveal_strlit("ttl:");
    let body = decimal(seconds as nat).push('s');
    let s = "ttl:"@ + body;
    assert(s[0] == 't');
    assert("authoritative-local"@[0] == 'a' && "always-refresh"@[0] == 'a' && "manual-only"@[0]
        == 'm' && "stale-if-error"@[0] == 's');
    assert(s.take(4) =~= "ttl:"@);
    assert(s.skip(4) =~= body);
    law_durations_are_read(seconds);
}

/// What is kept where nothing is said of it: a sweep every day, caches for two weeks, at least
/// twenty records of each kind and those of thirty days, histories for thirty days and objects
/// that nothing reaches for a week.
pub proof fn law_default_retention(c: RetentionConfig)
    requires
        c.is_default(),
    ensures
        ({
            let day = 24 * 60 * 60;
            &&& c.maintenance_interval.0.0 == day
            &&& c.cache_idle_ttl.0.0 == 14 * day
            &&& c.terminal_run_ttl.0.0 == 30 * day
            &&& c.terminal_run_keep_count == 20
            &&& c.authoritative_reflog_ttl.0.0 == 30 * day
            &&& c.authoritative_prune_ttl.0.0 == 7 * day
        }),
{
}

} // verus!
