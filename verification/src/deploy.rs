//! The deployment of the relay: the environment that its service runs in, and the service itself.

use crate::config::{AppConfig, RepositoryDescriptor, RepositoryMode};
use crate::git::GitExecutor;
use crate::hooks::{shell_quote, shell_quoted};
use crate::path::{self, absolute, under};
use crate::platform::PlatformProbe;
use crate::table::TextMap;
use crate::text::{
    after, begins, concat3, concat4, concat5, decimal, halves, is_blank, lines, lines_of,
    render_usize, replace, replaced, split_once, starts_with, strip_prefix, texts, trim, trimmed,
};
use crate::validator::{
    all_issues, issue_if, reported, reports, RepositoryFacts, ValidationInfrastructureError,
    ValidationReport, ValidationStatus, Validator,
};
use vstd::prelude::*;

verus! {

#[derive(Debug, Clone, Copy, PartialEq, Eq, Structural)]
pub enum RuntimeValidationStatus {
    Passed,
    Failed,
}

#[derive(Debug, Clone, PartialEq, Eq)]
pub struct RuntimeValidationIssue {
    pub code: String,
    pub message: String,
}

#[derive(Debug, Clone, PartialEq, Eq)]
pub struct RuntimeValidationReport {
    pub status: RuntimeValidationStatus,
    pub secret_count: usize,
    pub issues: Vec<RuntimeValidationIssue>,
    pub repository_contracts: Vec<ValidationReport>,
}

impl RuntimeValidationReport {
    pub fn passed(&self) -> (r: bool)
        ensures
            r == (self.status == RuntimeValidationStatus::Passed),
    {
        self.status == RuntimeValidationStatus::Passed
    }
}

/// What a list of issues says: the code and the message of each.
pub open spec fn runtime_issue_texts(issues: Seq<RuntimeValidationIssue>) -> Seq<
    (Seq<char>, Seq<char>),
> {
    Seq::new(issues.len(), |i: int| (issues[i].code@, issues[i].message@))
}

fn report(issues: &mut Vec<RuntimeValidationIssue>, found: bool, code: &str, message: &str)
    ensures
        runtime_issue_texts(final(issues)@) == runtime_issue_texts(old(issues)@) + issue_if(
            found,
            code@,
            message@,
        ),
{
    let ghost before = issues@;
    if found {
        issues.push(
            RuntimeValidationIssue { code: code.to_owned(), message: message.to_owned() },
        );
    }
    assert(runtime_issue_texts(issues@) =~= runtime_issue_texts(before) + issue_if(
        found,
        code@,
        message@,
    ));
}

// ---------------------------------------------------------------------------
// The environment file

/// What a line of an environment file says: a key and its value. The word `export` may stand
/// before the key.
pub open spec fn env_line(line: Seq<char>) -> Option<(Seq<char>, Seq<char>)> {
    let text = match after(trimmed(line), "export "@) {
        Some(rest) => rest,
        None => trimmed(line),
    };
    match halves(text, '=') {
        Some((key, value)) => Some((trimmed(key), trimmed(value))),
        None => None,
    }
}

/// Whether a line of an environment file says nothing: it is blank or a comment.
pub open spec fn is_env_comment(line: Seq<char>) -> bool {
    trimmed(line).len() == 0 || begins(trimmed(line), "#"@)
}

/// What the first `n` lines say, the last of each key where there are more; or the index of the
/// first line that is no assignment.
pub open spec fn env_in(lines: Seq<Seq<char>>, n: int) -> Result<Map<Seq<char>, Seq<char>>, int>
    decreases n,
{
    if n <= 0 {
        Ok(Map::empty())
    } else {
        match env_in(lines, n - 1) {
            Err(i) => Err(i),
            Ok(map) => if is_env_comment(lines[n - 1]) {
                Ok(map)
            } else {
                match env_line(lines[n - 1]) {
                    Some((key, value)) => Ok(map.insert(key, value)),
                    None => Err(n - 1),
                }
            },
        }
    }
}

proof fn lemma_env_stops(lines: Seq<Seq<char>>, n: int, m: int)
    requires
        0 <= n <= m,
        env_in(lines, n) is Err,
    ensures
        env_in(lines, m) == env_in(lines, n),
    decreases m - n,
{
    if n < m {
        lemma_env_stops(lines, n, m - 1);
    }
}

pub open spec fn value_texts(map: Map<Seq<char>, String>) -> Map<Seq<char>, Seq<char>> {
    map.map_values(|value: String| value@)
}

pub open spec fn unreadable_env(path: Seq<char>, error: Seq<char>) -> Seq<char> {
    "failed to read runtime secret env file "@ + path + ": "@ + error
}

pub open spec fn bad_env_line(path: Seq<char>, i: int) -> Seq<char> {
    "invalid runtime secret env line "@ + decimal((i + 1) as nat) + " in "@ + path
        + "; expected KEY=value"@
}

/// What an environment file says, or why it cannot be told. `source` is the text of the file, or
/// the error that came of reading it.
pub fn load_env_file(path: &str, source: Result<String, String>) -> (r: Result<
    TextMap<String>,
    String,
>)
    ensures
        match source {
            Err(error) => r is Err && r->Err_0@ == unreadable_env(path@, error@),
            Ok(text) => match env_in(lines_of(text@), lines_of(text@).len() as int) {
                Ok(map) => r is Ok && value_texts(r->Ok_0@) == map,
                Err(i) => r is Err && r->Err_0@ == bad_env_line(path@, i),
            },
        },
{
    match source {
        Ok(text) => parse_env(path, &text),
        Err(error) => Err(
            concat4("failed to read runtime secret env file ", path, ": ", &error),
        ),
    }
}

fn parse_env(path: &str, text: &str) -> (r: Result<TextMap<String>, String>)
    ensures
        match env_in(lines_of(text@), lines_of(text@).len() as int) {
            Ok(map) => r is Ok && value_texts(r->Ok_0@) == map,
            Err(i) => r is Err && r->Err_0@ == bad_env_line(path@, i),
        },
{
    let all = lines(text);
    let ghost ls = lines_of(text@);
    let mut values: TextMap<String> = TextMap::new();
    let mut i: usize = 0;
    assert(value_texts(values@) =~= Map::empty());
    while i < all.len()
        invariant
            i <= all@.len(),
            texts(all@) == ls,
            ls == lines_of(text@),
            env_in(ls, i as int) == Ok::<Map<Seq<char>, Seq<char>>, int>(value_texts(values@)),
        decreases all@.len() - i,
    {
        assert(ls[i as int] == all@[i as int]@);
        let line = trim(&all[i]);
        if !line.as_str().is_empty() && !starts_with(&line, "#") {
            let assignment = match strip_prefix(&line, "export ") {
                Some(rest) => rest,
                None => line,
            };
            match split_once(&assignment, '=') {
                Some((key, value)) => {
                    let ghost before = values@;
                    let key = trim(&key);
                    let value = trim(&value);
                    let ghost k = key@;
                    let ghost v = value;
                    values = values.with(key, value);
                    assert(value_texts(values@) =~= value_texts(before).insert(k, v@));
                },
                None => {
                    proof {
                        assert(env_in(ls, i + 1) == Err::<Map<Seq<char>, Seq<char>>, int>(
                            i as int,
                        ));
                        lemma_env_stops(ls, i + 1, ls.len() as int);
                    }
                    return Err(
                        concat5(
                            "invalid runtime secret env line ",
                            &render_usize(i + 1),
                            " in ",
                            path,
                            "; expected KEY=value",
                        ),
                    );
                },
            }
        }
        i += 1;
    }
    Ok(values)
}

// ---------------------------------------------------------------------------
// The runtime profile

/// What is wrong with a required key.
pub open spec fn key_issue(secrets: Map<Seq<char>, String>, key: Seq<char>) -> Seq<
    (Seq<char>, Seq<char>),
> {
    if !secrets.contains_key(key) {
        seq![
            (
                "deployment.required_secret_keys"@,
                "required runtime secret "@ + key + " is missing"@,
            ),
        ]
    } else if secrets[key]@.len() == 0 {
        seq![
            (
                "deployment.required_secret_keys"@,
                "required runtime secret "@ + key + " is present but empty"@,
            ),
        ]
    } else {
        Seq::empty()
    }
}

pub open spec fn key_issues(secrets: Map<Seq<char>, String>, keys: Seq<String>, n: int) -> Seq<
    (Seq<char>, Seq<char>),
>
    decreases n,
{
    if n <= 0 {
        Seq::empty()
    } else {
        key_issues(secrets, keys, n - 1) + key_issue(secrets, keys[n - 1]@)
    }
}

/// The secrets of an environment file; none where it cannot be told.
pub open spec fn known_secrets(env: Result<TextMap<String>, String>) -> Map<Seq<char>, String> {
    match env {
        Ok(secrets) => secrets@,
        Err(_) => Map::empty(),
    }
}

/// What is wrong with the deployment profile and its environment file.
pub open spec fn profile_issues(config: AppConfig, env: Result<TextMap<String>, String>) -> Seq<
    (Seq<char>, Seq<char>),
> {
    let file = config.deployment.runtime_env_file@;
    let keys = config.deployment.required_secret_keys@;
    issue_if(
        !absolute(file),
        "deployment.runtime_secret_env_file"@,
        "runtime secret env file must be absolute"@,
    ) + issue_if(
        under(file, "/nix/store"@),
        "deployment.runtime_secret_env_file"@,
        "runtime secret env file must remain outside /nix/store"@,
    ) + issue_if(
        trimmed(config.deployment.service_label@).len() == 0,
        "deployment.service_label"@,
        "service label must not be empty"@,
    ) + (match env {
        Ok(_) => Seq::empty(),
        Err(message) => seq![("deployment.runtime_secret_env_file"@, message@)],
    }) + key_issues(known_secrets(env), keys, keys.len() as int)
}

/// Adds what is wrong with the deployment profile and its environment file.
fn check_profile(
    config: &AppConfig,
    env: &Result<TextMap<String>, String>,
    issues: &mut Vec<RuntimeValidationIssue>,
)
    ensures
        runtime_issue_texts(final(issues)@) == runtime_issue_texts(old(issues)@) + profile_issues(
            *config,
            *env,
        ),
{
    let mut own: Vec<RuntimeValidationIssue> = Vec::new();
    let file = &config.deployment.runtime_env_file;
    assert(runtime_issue_texts(own@) =~= Seq::empty());
    report(
        &mut own,
        !path::is_absolute(file),
        "deployment.runtime_secret_env_file",
        "runtime secret env file must be absolute",
    );
    report(
        &mut own,
        path::starts_with(file, "/nix/store"),
        "deployment.runtime_secret_env_file",
        "runtime secret env file must remain outside /nix/store",
    );
    report(
        &mut own,
        is_blank(&config.deployment.service_label),
        "deployment.service_label",
        "service label must not be empty",
    );
    let ghost before = runtime_issue_texts(own@);
    match env {
        Ok(_) => {
            assert(before + Seq::empty() =~= before);
        },
        Err(message) => {
            report(&mut own, true, "deployment.runtime_secret_env_file", message);
        },
    }
    let ghost head = runtime_issue_texts(own@);
    let keys = &config.deployment.required_secret_keys;
    let mut i: usize = 0;
    assert(head + key_issues(known_secrets(*env), keys@, 0) =~= head);
    while i < keys.len()
        invariant
            i <= keys@.len(),
            runtime_issue_texts(own@) == head + key_issues(
                known_secrets(*env),
                keys@,
                i as int,
            ),
        decreases keys@.len() - i,
    {
        let key = &keys[i];
        let found = match env {
            Ok(secrets) => secrets.get(key),
            Err(_) => None,
        };
        let empty = match found {
            Some(value) => value.as_str().is_empty(),
            None => false,
        };
        let message = if found.is_none() {
            concat3("required runtime secret ", key, " is missing")
        } else {
            concat3("required runtime secret ", key, " is present but empty")
        };
        let ghost earlier = runtime_issue_texts(own@);
        report(&mut own, found.is_none() || empty, "deployment.required_secret_keys", &message);
        i += 1;
        proof {
            let done = key_issues(known_secrets(*env), keys@, i - 1);
            let here = key_issue(known_secrets(*env), key@);
            assert(runtime_issue_texts(own@) =~= earlier + here);
            assert((head + done) + here =~= head + (done + here));
        }
    }
    assert(runtime_issue_texts(own@) =~= profile_issues(*config, *env));
    assert(runtime_issue_texts(issues@ + own@) =~= runtime_issue_texts(issues@)
        + runtime_issue_texts(own@));
    issues.append(&mut own);
}

/// The indices of the authoritative repositories among the first `n`.
pub open spec fn authoritative_among(descriptors: Seq<RepositoryDescriptor>, n: int) -> Seq<int>
    decreases n,
{
    if n <= 0 {
        Seq::empty()
    } else if descriptors[n - 1].mode == RepositoryMode::Authoritative {
        authoritative_among(descriptors, n - 1).push(n - 1)
    } else {
        authoritative_among(descriptors, n - 1)
    }
}

/// Whether `contract` may be the report on a repository.
#[verifier::opaque]
pub open spec fn may_report<G: GitExecutor, P: PlatformProbe>(
    validator: Validator<'_, G, P>,
    config: AppConfig,
    descriptor: RepositoryDescriptor,
    repo_exists: bool,
    contract: ValidationReport,
) -> bool {
    exists|facts: RepositoryFacts|
        {
            &&& #[trigger] validator.may_observe(config, descriptor, repo_exists, facts)
            &&& reports(contract, descriptor, all_issues(config, descriptor, facts))
        }
}

/// Whether `contracts` may be the reports on the authoritative repositories among the first `n`,
/// in their order.
pub open spec fn may_report_all<G: GitExecutor, P: PlatformProbe>(
    validator: Validator<'_, G, P>,
    config: AppConfig,
    descriptors: Seq<RepositoryDescriptor>,
    path_exists: Seq<bool>,
    n: int,
    contracts: Seq<ValidationReport>,
) -> bool {
    let chosen = authoritative_among(descriptors, n);
    &&& contracts.len() == chosen.len()
    &&& forall|i: int|
        0 <= i < chosen.len() ==> may_report(
            validator,
            config,
            descriptors[chosen[i]],
            path_exists[chosen[i]],
            #[trigger] contracts[i],
        )
}

/// What is said of the first `n` contracts that are not met.
pub open spec fn contract_issues(contracts: Seq<ValidationReport>, n: int) -> Seq<
    (Seq<char>, Seq<char>),
>
    decreases n,
{
    if n <= 0 {
        Seq::empty()
    } else {
        contract_issues(contracts, n - 1) + issue_if(
            contracts[n - 1].status != ValidationStatus::Passed,
            "repository_contract"@,
            "authoritative repository "@ + contracts[n - 1].repo_id@
                + " failed contract validation"@,
        )
    }
}

fn contract_of<G: GitExecutor, P: PlatformProbe>(
    config: &AppConfig,
    descriptor: &RepositoryDescriptor,
    repo_exists: bool,
    validator: &Validator<'_, G, P>,
) -> (r: Result<ValidationReport, ValidationInfrastructureError>)
    ensures
        match r {
            Ok(contract) => may_report(*validator, *config, *descriptor, repo_exists, contract),
            Err(error) => validator.may_fail(*config, *descriptor, repo_exists, error),
        },
{
    reveal(may_report);
    validator.validate(config, descriptor, repo_exists)
}

fn check_contracts<G: GitExecutor, P: PlatformProbe>(
    config: &AppConfig,
    descriptors: &Vec<RepositoryDescriptor>,
    path_exists: &Vec<bool>,
    validator: &Validator<'_, G, P>,
    issues: &mut Vec<RuntimeValidationIssue>,
) -> (r: Result<Vec<ValidationReport>, ValidationInfrastructureError>)
    requires
        path_exists@.len() == descriptors@.len(),
    ensures
        match r {
            Ok(contracts) => {
                &&& may_report_all(
                    *validator,
                    *config,
                    descriptors@,
                    path_exists@,
                    descriptors@.len() as int,
                    contracts@,
                )
                &&& runtime_issue_texts(final(issues)@) == runtime_issue_texts(old(issues)@)
                    + contract_issues(contracts@, contracts@.len() as int)
            },
            Err(error) => exists|i: int|
                {
                    &&& 0 <= i < descriptors@.len()
                    &&& descriptors@[i].mode == RepositoryMode::Authoritative
                    &&& #[trigger] validator.may_fail(
                        *config,
                        descriptors@[i],
                        path_exists@[i],
                        error,
                    )
                },
        },
{
    let ghost profile = runtime_issue_texts(issues@);
    let mut contracts: Vec<ValidationReport> = Vec::new();
    let mut i: usize = 0;
    assert(profile + contract_issues(contracts@, 0) =~= profile);
    while i < descriptors.len()
        invariant
            i <= descriptors@.len(),
            path_exists@.len() == descriptors@.len(),
            may_report_all(
                *validator,
                *config,
                descriptors@,
                path_exists@,
                i as int,
                contracts@,
            ),
            runtime_issue_texts(issues@) == profile + contract_issues(
                contracts@,
                contracts@.len() as int,
            ),
        decreases descriptors@.len() - i,
    {
        let descriptor = &descriptors[i];
        if descriptor.mode == RepositoryMode::Authoritative {
            let contract = match contract_of(config, descriptor, path_exists[i], validator) {
                Ok(contract) => contract,
                Err(error) => {
                    assert(validator.may_fail(
                        *config,
                        descriptors@[i as int],
                        path_exists@[i as int],
                        error,
                    ));
                    return Err(error);
                },
            };
            let message = concat3(
                "authoritative repository ",
                &contract.repo_id,
                " failed contract validation",
            );
            let ghost earlier = contracts@;
            let ghost said = runtime_issue_texts(issues@);
            report(issues, !contract.passed(), "repository_contract", &message);
            contracts.push(contract);
            proof {
                let n = earlier.len() as int;
                lemma_contract_issues(earlier, contracts@, n);
                let before = contract_issues(earlier, n);
                let here = issue_if(
                    contract.status != ValidationStatus::Passed,
                    "repository_contract"@,
                    "authoritative repository "@ + contract.repo_id@
                        + " failed contract validation"@,
                );
                assert((profile + before) + here =~= profile + (before + here));
                let chosen = authoritative_among(descriptors@, i as int);
                assert(authoritative_among(descriptors@, i + 1) == chosen.push(i as int));
                assert forall|k: int| 0 <= k < chosen.push(i as int).len() implies may_report(
                    *validator,
                    *config,
                    descriptors@[chosen.push(i as int)[k]],
                    path_exists@[chosen.push(i as int)[k]],
                    #[trigger] contracts@[k],
                ) by {
                    if k < chosen.len() {
                        assert(contracts@[k] == earlier[k]);
                    }
                }
            }
        }
        i += 1;
    }
    Ok(contracts)
}

/// The report on a deployment: the profile, its environment file, and the contract of each
/// authoritative repository. `env` is what the environment file says, or why it cannot be told.
pub fn validate_runtime_profile<G: GitExecutor, P: PlatformProbe>(
    config: &AppConfig,
    env: &Result<TextMap<String>, String>,
    descriptors: &Vec<RepositoryDescriptor>,
    path_exists: &Vec<bool>,
    validator: &Validator<'_, G, P>,
) -> (r: Result<RuntimeValidationReport, ValidationInfrastructureError>)
    requires
        path_exists@.len() == descriptors@.len(),
    ensures
        match r {
            Ok(report) => {
                let issues = profile_issues(*config, *env) + contract_issues(
                    report.repository_contracts@,
                    report.repository_contracts@.len() as int,
                );
                &&& may_report_all(
                    *validator,
                    *config,
                    descriptors@,
                    path_exists@,
                    descriptors@.len() as int,
                    report.repository_contracts@,
                )
                &&& runtime_issue_texts(report.issues@) == issues
                &&& report.secret_count == match *env {
                    Ok(secrets) => secrets.keys().len(),
                    Err(_) => 0,
                }
                &&& (report.status == RuntimeValidationStatus::Passed <==> issues.len() == 0)
            },
            Err(error) => exists|i: int|
                {
                    &&& 0 <= i < descriptors@.len()
                    &&& descriptors@[i].mode == RepositoryMode::Authoritative
                    &&& #[trigger] validator.may_fail(
                        *config,
                        descriptors@[i],
                        path_exists@[i],
                        error,
                    )
                },
        },
{
    let mut issues: Vec<RuntimeValidationIssue> = Vec::new();
    let ghost none = runtime_issue_texts(issues@);
    check_profile(config, env, &mut issues);
    assert(none + profile_issues(*config, *env) =~= profile_issues(*config, *env));
    let contracts = match check_contracts(
        config,
        descriptors,
        path_exists,
        validator,
        &mut issues,
    ) {
        Ok(contracts) => contracts,
        Err(error) => {
            return Err(error);
        },
    };
    let secret_count = match env {
        Ok(secrets) => secrets.len(),
        Err(_) => 0,
    };
    let status = if issues.len() == 0 {
        RuntimeValidationStatus::Passed
    } else {
        RuntimeValidationStatus::Failed
    };
    assert(runtime_issue_texts(issues@).len() == issues@.len());
    Ok(RuntimeValidationReport { status, secret_count, issues, repository_contracts: contracts })
}

proof fn lemma_contract_issues(a: Seq<ValidationReport>, b: Seq<ValidationReport>, n: int)
    requires
        0 <= n <= a.len(),
        n <= b.len(),
        forall|i: int| 0 <= i < n ==> a[i] == b[i],
    ensures
        contract_issues(a, n) == contract_issues(b, n),
    decreases n,
{
    if n > 0 {
        lemma_contract_issues(a, b, n - 1);
    }
}

proof fn lemma_key_issues(secrets: Map<Seq<char>, String>, keys: Seq<String>, n: int, i: int)
    requires
        0 <= i < n,
        key_issues(secrets, keys, n).len() == 0,
    ensures
        secrets.contains_key(keys[i]@),
        secrets[keys[i]@]@.len() > 0,
    decreases n,
{
    if i < n - 1 {
        lemma_key_issues(secrets, keys, n - 1, i);
    }
}

/// A profile without issues names an absolute environment file outside `/nix/store`, and that file
/// holds a value for every required key.
pub proof fn law_passing_profile_is_complete(
    config: AppConfig,
    env: Result<TextMap<String>, String>,
)
    requires
        profile_issues(config, env).len() == 0,
    ensures
        env is Ok,
        absolute(config.deployment.runtime_env_file@),
        !under(config.deployment.runtime_env_file@, "/nix/store"@),
        forall|i: int|
            0 <= i < config.deployment.required_secret_keys@.len() ==> known_secrets(
                env,
            ).contains_key(#[trigger] config.deployment.required_secret_keys@[i]@)
                && known_secrets(env)[config.deployment.required_secret_keys@[i]@]@.len() > 0,
{
    let keys = config.deployment.required_secret_keys@;
    assert forall|i: int| 0 <= i < keys.len() implies known_secrets(env).contains_key(
        #[trigger] keys[i]@,
    ) && known_secrets(env)[keys[i]@]@.len() > 0 by {
        lemma_key_issues(known_secrets(env), keys, keys.len() as int, i);
    }
}

// ---------------------------------------------------------------------------
// The service

#[derive(Debug, Clone, Copy, PartialEq, Eq, Structural)]
pub enum ServiceFormat {
    Launchd,
    Systemd,
}

#[derive(Debug, Clone)]
pub struct ServiceRenderRequest {
    pub binary_path: String,
    pub config_path: String,
    pub format: ServiceFormat,
}

/// The unit of the service for systemd.
pub open spec fn systemd_unit(config: AppConfig, request: ServiceRenderRequest) -> Seq<char> {
    "[Unit]\nDescription=Git Relay\nAfter=network.target\n\n[Service]\nType=simple\nWorkingDirectory="@
        + config.paths.state_root@ + "\nEnvironmentFile="@ + config.deployment.runtime_env_file@
        + "\nExecStart="@ + request.binary_path@ + " serve --config "@ + request.config_path@
        + "\nRestart=on-failure\nRestartSec=2\n\n[Install]\nWantedBy=multi-user.target\n"@
}

/// `value` as text in XML.
pub open spec fn xml_escaped(value: Seq<char>) -> Seq<char> {
    replaced(replaced(replaced(value, '&', "&amp;"@), '<', "&lt;"@), '>', "&gt;"@)
}

pub open spec fn launchd_command(config: AppConfig, request: ServiceRenderRequest) -> Seq<char> {
    "set -a; . "@ + shell_quoted(config.deployment.runtime_env_file@) + "; exec "@ + shell_quoted(
        request.binary_path@,
    ) + " serve --config "@ + shell_quoted(request.config_path@)
}

/// The property list of the service for launchd.
pub open spec fn launchd_list(config: AppConfig, request: ServiceRenderRequest) -> Seq<char> {
    "<?xml version=\"1.0\" encoding=\"UTF-8\"?>\n<!DOCTYPE plist PUBLIC \"-//Apple//DTD PLIST 1.0//EN\" \"http://www.apple.com/DTDs/PropertyList-1.0.dtd\">\n<plist version=\"1.0\">\n  <dict>\n    <key>Label</key>\n    <string>"@
        + xml_escaped(config.deployment.service_label@)
        + "</string>\n    <key>ProgramArguments</key>\n    <array>\n      <string>/bin/sh</string>\n      <string>-lc</string>\n      <string>"@
        + xml_escaped(launchd_command(config, request))
        + "</string>\n    </array>\n    <key>RunAtLoad</key>\n    <true/>\n    <key>KeepAlive</key>\n    <true/>\n    <key>WorkingDirectory</key>\n    <string>"@
        + xml_escaped(config.paths.state_root@) + "</string>\n  </dict>\n</plist>\n"@
}

fn xml_escape(value: &str) -> (r: String)
    ensures
        r@ == xml_escaped(value@),
{
    replace(&replace(&replace(value, '&', "&amp;"), '<', "&lt;"), '>', "&gt;")
}

fn render_systemd_service(config: &AppConfig, request: &ServiceRenderRequest) -> (r: String)
    ensures
        r@ == systemd_unit(*config, *request),
{
    let head = concat4(
        "[Unit]\nDescription=Git Relay\nAfter=network.target\n\n[Service]\nType=simple\nWorkingDirectory=",
        &config.paths.state_root,
        "\nEnvironmentFile=",
        &config.deployment.runtime_env_file,
    );
    let middle = concat4(&head, "\nExecStart=", &request.binary_path, " serve --config ");
    concat3(
        &middle,
        &request.config_path,
        "\nRestart=on-failure\nRestartSec=2\n\n[Install]\nWantedBy=multi-user.target\n",
    )
}

fn render_launchd_service(config: &AppConfig, request: &ServiceRenderRequest) -> (r: String)
    ensures
        r@ == launchd_list(*config, *request),
{
    let start = concat4(
        "set -a; . ",
        &shell_quote(&config.deployment.runtime_env_file),
        "; exec ",
        &shell_quote(&request.binary_path),
    );
    let command = concat3(&start, " serve --config ", &shell_quote(&request.config_path));
    let head = concat4(
        "<?xml version=\"1.0\" encoding=\"UTF-8\"?>\n<!DOCTYPE plist PUBLIC \"-//Apple//DTD PLIST 1.0//EN\" \"http://www.apple.com/DTDs/PropertyList-1.0.dtd\">\n<plist version=\"1.0\">\n  <dict>\n    <key>Label</key>\n    <string>",
        &xml_escape(&config.deployment.service_label),
        "</string>\n    <key>ProgramArguments</key>\n    <array>\n      <string>/bin/sh</string>\n      <string>-lc</string>\n      <string>",
        &xml_escape(&command),
    );
    concat4(
        &head,
        "</string>\n    </array>\n    <key>RunAtLoad</key>\n    <true/>\n    <key>KeepAlive</key>\n    <true/>\n    <key>WorkingDirectory</key>\n    <string>",
        &xml_escape(&config.paths.state_root),
        "</string>\n  </dict>\n</plist>\n",
    )
}

/// The description of the service for a service manager.
pub fn render_service(config: &AppConfig, request: &ServiceRenderRequest) -> (r: String)
    ensures
        r@ == match request.format {
            ServiceFormat::Systemd => systemd_unit(*config, *request),
            ServiceFormat::Launchd => launchd_list(*config, *request),
        },
{
    match request.format {
        ServiceFormat::Systemd => render_systemd_service(config, request),
        ServiceFormat::Launchd => render_launchd_service(config, request),
    }
}

// ---------------------------------------------------------------------------
// What the environment file and the service say

/// A line with a key, `=` and a value gives that key that value, with or without `export` before
/// it; blank lines and comments give none.
pub proof fn law_assignments_are_read(key: Seq<char>, value: Seq<char>)
    requires
        crate::hooks::is_word(key),
        crate::hooks::is_word(value),
        !key.contains('='),
        key[0] != '#',
    ensures
        env_line(key + seq!['='] + value) == Some((key, value)),
        env_line("export "@ + (key + seq!['='] + value)) == Some((key, value)),
        !is_env_comment(key + seq!['='] + value),
        env_line(key) is None,
        is_env_comment(Seq::empty()),
        is_env_comment(seq!['#'] + value),
{
    reveal_strlit("export ");
    reveal_strlit("#");
    let line = key + seq!['='] + value;
    let long = "export "@ + line;
    lemma_untrimmed(key);
    lemma_untrimmed(value);
    assert(line[0] == key[0] && line.last() == value.last());
    lemma_untrimmed(line);
    assert(long[0] == 'e' && long.last() == value.last());
    lemma_untrimmed(long);
    assert(crate::text::is_space(' '));
    if begins(line, "export "@) {
        assert(line.take("export "@.len() as int)[6] == ' ');
        if key.len() > 6 {
            assert(line[6] == key[6]);
        } else {
            assert(line[key.len() as int] == '=');
            assert(line.take("export "@.len() as int)[key.len() as int] == '=');
            assert("export "@[key.len() as int] == '=');
        }
    }
    if begins(key, "export "@) {
        assert(key.take("export "@.len() as int)[6] == ' ');
        assert(crate::text::is_space(key[6]));
    }
    assert(long.take("export "@.len() as int) =~= "export "@);
    assert(long.skip("export "@.len() as int) =~= line);
    crate::text::law_halves(line, key, value, '=');
    crate::text::law_halves(key, key, value, '=');
    if begins(line, "#"@) {
        assert(line.take("#"@.len() as int)[0] == '#');
    }
    let comment = seq!['#'] + value;
    assert(comment.last() == value.last());
    lemma_untrimmed(comment);
    assert(comment.take("#"@.len() as int) =~= "#"@);
}

proof fn lemma_untrimmed(s: Seq<char>)
    requires
        s.len() > 0,
        !crate::text::is_space(s[0]),
        !crate::text::is_space(s.last()),
    ensures
        trimmed(s) == s,
{
    reveal_with_fuel(crate::text::trim_start, 2);
    reveal_with_fuel(crate::text::trim_end, 2);
}

/// A key has the value that the last line which assigns it gives, and only keys that are assigned
/// have one.
pub proof fn law_last_assignments_count(
    lines: Seq<Seq<char>>,
    n: int,
    i: int,
    key: Seq<char>,
    value: Seq<char>,
)
    requires
        0 <= i < n <= lines.len(),
        env_in(lines, n) is Ok,
        !is_env_comment(lines[i]),
        env_line(lines[i]) == Some((key, value)),
        forall|j: int|
            i < j < n ==> is_env_comment(#[trigger] lines[j]) || (env_line(lines[j]) is Some && {
                let (other, _) = env_line(lines[j])->0;
                other != key
            }),
    ensures
        env_in(lines, n)->Ok_0.contains_key(key),
        env_in(lines, n)->Ok_0[key] == value,
    decreases n,
{
    if i < n - 1 {
        law_last_assignments_count(lines, n - 1, i, key, value);
        assert(is_env_comment(lines[n - 1]) || env_line(lines[n - 1]) is Some);
    }
}

/// An environment file can be read exactly where each of its lines says nothing or assigns.
pub proof fn law_readable_environments(lines: Seq<Seq<char>>, n: int)
    requires
        0 <= n <= lines.len(),
    ensures
        env_in(lines, n) is Ok <==> forall|i: int|
            0 <= i < n ==> is_env_comment(#[trigger] lines[i]) || env_line(lines[i]) is Some,
        env_in(lines, n) matches Err(k) ==> 0 <= k < n && !is_env_comment(lines[k]) && env_line(
            lines[k],
        ) is None,
    decreases n,
{
    if n > 0 {
        law_readable_environments(lines, n - 1);
    }
}

/// A profile is without issue exactly where its environment file is at an absolute path outside the
/// store, can be read, and has a value for every required key, and the service has a label.
pub proof fn law_complete_profiles_pass(config: AppConfig, env: Result<TextMap<String>, String>)
    ensures
        profile_issues(config, env).len() == 0 <==> {
            let keys = config.deployment.required_secret_keys@;
            &&& absolute(config.deployment.runtime_env_file@)
            &&& !under(config.deployment.runtime_env_file@, "/nix/store"@)
            &&& trimmed(config.deployment.service_label@).len() > 0
            &&& env is Ok
            &&& forall|i: int|
                0 <= i < keys.len() ==> known_secrets(env).contains_key(#[trigger] keys[i]@)
                    && known_secrets(env)[keys[i]@]@.len() > 0
        },
        env matches Ok(secrets) ==> known_secrets(env) == secrets@,
{
    let keys = config.deployment.required_secret_keys@;
    lemma_no_key_issues(known_secrets(env), keys, keys.len() as int);
}

proof fn lemma_no_key_issues(secrets: Map<Seq<char>, String>, keys: Seq<String>, n: int)
    requires
        0 <= n <= keys.len(),
    ensures
        key_issues(secrets, keys, n).len() == 0 <==> forall|i: int|
            0 <= i < n ==> secrets.contains_key(#[trigger] keys[i]@) && secrets[keys[i]@]@.len()
                > 0,
    decreases n,
{
    if n > 0 {
        lemma_no_key_issues(secrets, keys, n - 1);
    }
}

/// The contracts are without issue exactly where each passed.
pub proof fn law_met_contracts(contracts: Seq<ValidationReport>, n: int)
    requires
        0 <= n <= contracts.len(),
    ensures
        contract_issues(contracts, n).len() == 0 <==> forall|i: int|
            0 <= i < n ==> (#[trigger] contracts[i]).status == ValidationStatus::Passed,
    decreases n,
{
    if n > 0 {
        law_met_contracts(contracts, n - 1);
    }
}

/// The repositories whose contracts are examined are exactly the authoritative ones.
pub proof fn law_authorities_are_examined(descriptors: Seq<RepositoryDescriptor>, n: int, i: int)
    requires
        0 <= n <= descriptors.len(),
    ensures
        authoritative_among(descriptors, n).contains(i) <==> 0 <= i < n && descriptors[i].mode
            == RepositoryMode::Authoritative,
    decreases n,
{
    if n > 0 {
        law_authorities_are_examined(descriptors, n - 1, i);
        let before = authoritative_among(descriptors, n - 1);
        let all = authoritative_among(descriptors, n);
        if before.contains(i) {
            let k = choose|k: int| 0 <= k < before.len() && before[k] == i;
            assert(all[k] == i);
        }
        if i == n - 1 && descriptors[i].mode == RepositoryMode::Authoritative {
            assert(all[all.len() - 1] == i);
        }
    }
}

/// The service runs the given binary on the given configuration, with the secrets of the
/// environment file and in the directory of the state.
pub proof fn law_systemd_runs_the_service(config: AppConfig, request: ServiceRenderRequest)
    ensures
        ({
            let unit = systemd_unit(config, request);
            &&& crate::text::holds(unit, "\nWorkingDirectory="@ + config.paths.state_root@ + "\n"@)
            &&& crate::text::holds(
                unit,
                "\nEnvironmentFile="@ + config.deployment.runtime_env_file@ + "\n"@,
            )
            &&& crate::text::holds(
                unit,
                "\nExecStart="@ + request.binary_path@ + " serve --config "@ + request.config_path@
                    + "\n"@,
            )
            &&& crate::text::holds(unit, "\nRestart=on-failure\n"@)
            &&& crate::text::holds(unit, "\nWantedBy=multi-user.target\n"@)
        }),
{
    reveal_strlit(
        "[Unit]\nDescription=Git Relay\nAfter=network.target\n\n[Service]\nType=simple\nWorkingDirectory=",
    );
    reveal_strlit("\nWorkingDirectory=");
    reveal_strlit("\nEnvironmentFile=");
    reveal_strlit("\nExecStart=");
    reveal_strlit(
        "\nRestart=on-failure\nRestartSec=2\n\n[Install]\nWantedBy=multi-user.target\n",
    );
    reveal_strlit("\nRestart=on-failure\n");
    reveal_strlit("\nWantedBy=multi-user.target\n");
    reveal_strlit("\n");
    let head =
        "[Unit]\nDescription=Git Relay\nAfter=network.target\n\n[Service]\nType=simple\nWorkingDirectory="@;
    let tail = "\nRestart=on-failure\nRestartSec=2\n\n[Install]\nWantedBy=multi-user.target\n"@;
    let unit = systemd_unit(config, request);
    let root = config.paths.state_root@;
    let env = config.deployment.runtime_env_file@;
    let a = head.len() - "\nWorkingDirectory="@.len();
    let work = "\nWorkingDirectory="@ + root + "\n"@;
    assert(unit.subrange(a, a + work.len()) =~= work);
    assert(crate::text::stands_at(unit, work, a));
    let b = head.len() + root.len();
    let environment = "\nEnvironmentFile="@ + env + "\n"@;
    assert(unit.subrange(b as int, b as int + environment.len()) =~= environment);
    assert(crate::text::stands_at(unit, environment, b as int));
    let c = b + "\nEnvironmentFile="@.len() + env.len();
    let start = "\nExecStart="@ + request.binary_path@ + " serve --config "@ + request.config_path@
        + "\n"@;
    assert(unit.subrange(c as int, c as int + start.len()) =~= start);
    assert(crate::text::stands_at(unit, start, c as int));
    let d = unit.len() - tail.len();
    assert(unit.skip(d) =~= tail);
    let again = "\nRestart=on-failure\n"@;
    assert(unit.subrange(d, d + again.len()) =~= again);
    assert(crate::text::stands_at(unit, again, d));
    let wanted = "\nWantedBy=multi-user.target\n"@;
    let e = unit.len() - wanted.len();
    assert(unit.subrange(e, e + wanted.len()) =~= wanted);
    assert(crate::text::stands_at(unit, wanted, e));
}

proof fn lemma_replaced_sum(a: Seq<char>, b: Seq<char>, c: char, w: Seq<char>)
    ensures
        replaced(a + b, c, w) == replaced(a, c, w) + replaced(b, c, w),
    decreases b.len(),
{
    if b.len() == 0 {
        assert(a + b =~= a);
        assert(replaced(a, c, w) + replaced(b, c, w) =~= replaced(a, c, w));
    } else {
        lemma_replaced_sum(a, b.drop_last(), c, w);
        assert((a + b).drop_last() =~= a + b.drop_last());
        assert((a + b).last() == b.last());
        let left = replaced(a, c, w);
        let right = replaced(b.drop_last(), c, w);
        assert(left + (right + w) =~= (left + right) + w);
        assert(left + right.push(b.last()) =~= (left + right).push(b.last()));
    }
}

proof fn lemma_replaced_absent(s: Seq<char>, c: char, w: Seq<char>)
    requires
        !s.contains(c),
    ensures
        replaced(s, c, w) == s,
    decreases s.len(),
{
    if s.len() > 0 {
        let short = s.drop_last();
        assert(!short.contains(c)) by {
            if short.contains(c) {
                let k = choose|k: int| 0 <= k < short.len() && short[k] == c;
                assert(s[k] == c);
            }
        }
        lemma_replaced_absent(short, c, w);
        assert(s.last() != c) by {
            assert(s[s.len() - 1] == s.last());
        }
        assert(short.push(s.last()) =~= s);
    } else {
        assert(s =~= Seq::empty());
    }
}

/// In XML a text is written character by character: the three characters that mean something
/// there by their names, and every other as itself.
pub proof fn law_escaped_texts(a: Seq<char>, c: char)
    ensures
        xml_escaped(Seq::empty()) == Seq::<char>::empty(),
        xml_escaped(a.push(c)) == xml_escaped(a) + (if c == '&' {
            "&amp;"@
        } else if c == '<' {
            "&lt;"@
        } else if c == '>' {
            "&gt;"@
        } else {
            seq![c]
        }),
{
    reveal_strlit("&amp;");
    reveal_strlit("&lt;");
    reveal_strlit("&gt;");
    let one = replaced(a, '&', "&amp;"@);
    let two = replaced(one, '<', "&lt;"@);
    let whole = a.push(c);
    assert(whole.drop_last() =~= a);
    if c == '&' {
        lemma_replaced_sum(one, "&amp;"@, '<', "&lt;"@);
        lemma_replaced_absent("&amp;"@, '<', "&lt;"@);
        lemma_replaced_sum(two, "&amp;"@, '>', "&gt;"@);
        lemma_replaced_absent("&amp;"@, '>', "&gt;"@);
    } else {
        assert(one.push(c).drop_last() =~= one);
        if c == '<' {
            lemma_replaced_sum(two, "&lt;"@, '>', "&gt;"@);
            lemma_replaced_absent("&lt;"@, '>', "&gt;"@);
        } else {
            assert(two.push(c).drop_last() =~= two);
            if c != '>' {
                assert(xml_escaped(whole) =~= xml_escaped(a) + seq![c]);
            }
        }
    }
}

/// The service runs the given binary on the given configuration, in a shell that reads the
/// secrets of the environment file first, and in the directory of the state.
pub proof fn law_launchd_runs_the_service(config: AppConfig, request: ServiceRenderRequest)
    ensures
        ({
            let list = launchd_list(config, request);
            let command = launchd_command(config, request);
            &&& crate::text::begins(
                command,
                "set -a; . "@ + shell_quoted(config.deployment.runtime_env_file@) + "; "@,
            )
            &&& crate::text::ends(
                command,
                "exec "@ + shell_quoted(request.binary_path@) + " serve --config "@ + shell_quoted(
                    request.config_path@,
                ),
            )
            &&& crate::text::holds(
                list,
                "<key>Label</key>\n    <string>"@ + xml_escaped(config.deployment.service_label@)
                    + "</string>"@,
            )
            &&& crate::text::holds(
                list,
                "<string>/bin/sh</string>\n      <string>-lc</string>\n      <string>"@
                    + xml_escaped(command) + "</string>"@,
            )
            &&& crate::text::holds(
                list,
                "<key>WorkingDirectory</key>\n    <string>"@ + xml_escaped(config.paths.state_root@)
                    + "</string>"@,
            )
        }),
{
    reveal_strlit("set -a; . ");
    reveal_strlit("; exec ");
    reveal_strlit("; ");
    reveal_strlit("exec ");
    reveal_strlit("</string>");
    reveal_strlit("<key>Label</key>\n    <string>");
    reveal_strlit("<string>/bin/sh</string>\n      <string>-lc</string>\n      <string>");
    reveal_strlit("<key>WorkingDirectory</key>\n    <string>");
    reveal_strlit(
        "<?xml version=\"1.0\" encoding=\"UTF-8\"?>\n<!DOCTYPE plist PUBLIC \"-//Apple//DTD PLIST 1.0//EN\" \"http://www.apple.com/DTDs/PropertyList-1.0.dtd\">\n<plist version=\"1.0\">\n  <dict>\n    <key>Label</key>\n    <string>",
    );
    reveal_strlit(
        "</string>\n    <key>ProgramArguments</key>\n    <array>\n      <string>/bin/sh</string>\n      <string>-lc</string>\n      <string>",
    );
    reveal_strlit(
        "</string>\n    </array>\n    <key>RunAtLoad</key>\n    <true/>\n    <key>KeepAlive</key>\n    <true/>\n    <key>WorkingDirectory</key>\n    <string>",
    );
    reveal_strlit("</string>\n  </dict>\n</plist>\n");
    let head =
        "<?xml version=\"1.0\" encoding=\"UTF-8\"?>\n<!DOCTYPE plist PUBLIC \"-//Apple//DTD PLIST 1.0//EN\" \"http://www.apple.com/DTDs/PropertyList-1.0.dtd\">\n<plist version=\"1.0\">\n  <dict>\n    <key>Label</key>\n    <string>"@;
    let program =
        "</string>\n    <key>ProgramArguments</key>\n    <array>\n      <string>/bin/sh</string>\n      <string>-lc</string>\n      <string>"@;
    let work =
        "</string>\n    </array>\n    <key>RunAtLoad</key>\n    <true/>\n    <key>KeepAlive</key>\n    <true/>\n    <key>WorkingDirectory</key>\n    <string>"@;
    let list = launchd_list(config, request);
    let command = launchd_command(config, request);
    let first = "set -a; . "@ + shell_quoted(config.deployment.runtime_env_file@) + "; "@;
    assert(command.take(first.len() as int) =~= first);
    let last = "exec "@ + shell_quoted(request.binary_path@) + " serve --config "@ + shell_quoted(
        request.config_path@,
    );
    assert(command.skip(command.len() - last.len()) =~= last);
    let label = xml_escaped(config.deployment.service_label@);
    let run = xml_escaped(command);
    let root = xml_escaped(config.paths.state_root@);
    let key = "<key>Label</key>\n    <string>"@;
    let close = "</string>"@;
    let foot = "</string>\n  </dict>\n</plist>\n"@;
    let in_shell = "<string>/bin/sh</string>\n      <string>-lc</string>\n      <string>"@;
    let in_dir = "<key>WorkingDirectory</key>\n    <string>"@;
    let rest = program + run + work + root + foot;
    assert(head.skip(head.len() - key.len()) =~= key);
    assert(rest.take(close.len() as int) =~= close);
    lemma_between(head, key, label, close, rest);
    assert(head + label + rest =~= list);
    let lead = head + label + program;
    assert(lead.skip(lead.len() - in_shell.len()) =~= in_shell);
    let tail = work + root + foot;
    assert(tail.take(close.len() as int) =~= close);
    lemma_between(lead, in_shell, run, close, tail);
    assert(lead + run + tail =~= list);
    let all = lead + run + work;
    assert(all.skip(all.len() - in_dir.len()) =~= in_dir);
    assert(foot.take(close.len() as int) =~= close);
    lemma_between(all, in_dir, root, close, foot);
    assert(all + root + foot =~= list);
}

proof fn lemma_between(
    lead: Seq<char>,
    key: Seq<char>,
    middle: Seq<char>,
    close: Seq<char>,
    tail: Seq<char>,
)
    requires
        crate::text::ends(lead, key),
        crate::text::begins(tail, close),
    ensures
        crate::text::holds(lead + middle + tail, key + middle + close),
{
    let at = lead.len() - key.len();
    let part = key + middle + close;
    let whole = lead + middle + tail;
    assert(lead =~= lead.take(at) + lead.skip(at));
    assert(tail =~= tail.take(close.len() as int) + tail.skip(close.len() as int));
    assert(whole.subrange(at, at + part.len()) =~= part) by {
        assert forall|i: int| 0 <= i < part.len() implies whole[at + i] == part[i] by {
            if i < key.len() {
                assert(lead.skip(at)[i] == key[i]);
            } else if i >= key.len() + middle.len() {
                let k = i - key.len() - middle.len();
                assert(tail.take(close.len() as int)[k] == close[k]);
            }
        }
    }
    assert(crate::text::stands_at(whole, part, at));
}

/// A contract that is not met is reported as such, and a required secret that is missing or empty
/// as one.
pub proof fn law_deployment_issues_are_named(
    contracts: Seq<ValidationReport>,
    n: int,
    i: int,
    secrets: Map<Seq<char>, String>,
    key: Seq<char>,
)
    requires
        0 <= i < n <= contracts.len(),
    ensures
        contracts[i].status != ValidationStatus::Passed ==> reported(
            contract_issues(contracts, n),
            "repository_contract"@,
        ),
        key_issue(secrets, key).len() == 0 <==> secrets.contains_key(key) && secrets[key]@.len()
            > 0,
        key_issue(secrets, key).len() > 0 ==> reported(
            key_issue(secrets, key),
            "deployment.required_secret_keys"@,
        ),
    decreases n,
{
    if contracts[i].status != ValidationStatus::Passed {
        let all = contract_issues(contracts, n);
        let before = contract_issues(contracts, n - 1);
        if i < n - 1 {
            law_deployment_issues_are_named(contracts, n - 1, i, secrets, key);
            let k = choose|k: int|
                0 <= k < before.len() && (#[trigger] before[k]).0 == "repository_contract"@;
            assert(all[k] == before[k]);
        } else {
            assert(all[before.len() as int].0 == "repository_contract"@);
        }
    }
    if key_issue(secrets, key).len() > 0 {
        assert(key_issue(secrets, key)[0].0 == "deployment.required_secret_keys"@);
    }
}

/// The report on a repository is about it, and it passes where what was observed gives no cause
/// for an issue. There is one report for each authoritative repository, in their order.
pub proof fn law_contracts_are_of_repositories<G: GitExecutor, P: PlatformProbe>(
    validator: Validator<'_, G, P>,
    config: AppConfig,
    descriptors: Seq<RepositoryDescriptor>,
    path_exists: Seq<bool>,
    n: int,
    contracts: Seq<ValidationReport>,
    i: int,
)
    requires
        may_report_all(validator, config, descriptors, path_exists, n, contracts),
        0 <= i < authoritative_among(descriptors, n).len(),
    ensures
        contracts.len() == authoritative_among(descriptors, n).len(),
        ({
            let d = descriptors[authoritative_among(descriptors, n)[i]];
            let repo_exists = path_exists[authoritative_among(descriptors, n)[i]];
            &&& contracts[i].repo_id@ == d.repo_id@
            &&& exists|facts: RepositoryFacts| #[trigger]
                validator.may_observe(config, d, repo_exists, facts) && (contracts[i].status
                    == ValidationStatus::Passed <==> all_issues(config, d, facts).len() == 0)
        }),
{
    reveal(may_report);
    let d = descriptors[authoritative_among(descriptors, n)[i]];
    let repo_exists = path_exists[authoritative_among(descriptors, n)[i]];
    assert(may_report(validator, config, d, repo_exists, contracts[i]));
}

} // verus!
