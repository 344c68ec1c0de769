//! The structured log of what the relay does.

use crate::path::{self, joined_path};
use crate::text::{concat2, concat4, text_of, texts, trim, trimmed};
use vstd::prelude::*;

verus! {

/// An entry of the log. Its payload is the text of a JSON value.
#[derive(Debug, Clone, PartialEq)]
pub struct StructuredLogEvent {
    pub recorded_at_ms: u128,
    pub event_type: String,
    pub request_id: Option<String>,
    pub repo_id: Option<String>,
    pub push_id: Option<String>,
    pub reconcile_run_id: Option<String>,
    pub upstream_id: Option<String>,
    pub attempt_id: Option<String>,
    pub client_identity: Option<String>,
    pub payload: String,
}

#[derive(Debug, Clone)]
pub enum AuditError {
    CreateDir { path: String, error: String },
    Open { path: String, error: String },
    Serialize(String),
    Write { path: String, error: String },
}

impl AuditError {
    pub open spec fn message_text(self) -> Seq<char> {
        match self {
            AuditError::CreateDir { path, error } => "failed to create audit directory "@ + path@ + ": "@ + error@,
            AuditError::Open { path, error } => "failed to open audit log "@ + path@ + ": "@ + error@,
            AuditError::Serialize(error) => "failed to serialize structured audit event: "@ + error@,
            AuditError::Write { path, error } => "failed to append audit log "@ + path@ + ": "@ + error@,
        }
    }

    /// The error in words.
    pub fn message(&self) -> (r: String)
        ensures
            r@ == self.message_text(),
    {
        match self {
            AuditError::CreateDir { path, error } => concat4("failed to create audit directory ", path, ": ", error),
            AuditError::Open { path, error } => concat4("failed to open audit log ", path, ": ", error),
            AuditError::Serialize(error) => concat2("failed to serialize structured audit event: ", error),
            AuditError::Write { path, error } => concat4("failed to append audit log ", path, ": ", error),
        }
    }
}

/// Where the log is kept.
pub fn structured_log_file_path(state_root: &str) -> (r: String)
    ensures
        r@ == joined_path(joined_path(state_root@, "logs"@), "structured.jsonl"@),
{
    path::join(&path::join(state_root, "logs"), "structured.jsonl")
}

/// The variables of the environment that name a client, in the order in which they are asked.
pub open spec fn identity_names() -> Seq<Seq<char>> {
    seq![
        "GIT_RELAY_CLIENT_IDENTITY"@,
        "GIT_RELAY_AUTHENTICATED_IDENTITY"@,
        "SSH_USER"@,
        "USER"@,
        "LOGNAME"@,
    ]
}

/// The variables of the environment that name a client, in the order in which they are asked.
pub fn identity_variables() -> (r: Vec<String>)
    ensures
        texts(r@) == identity_names(),
{
    vec![
        "GIT_RELAY_CLIENT_IDENTITY".to_owned(),
        "GIT_RELAY_AUTHENTICATED_IDENTITY".to_owned(),
        "SSH_USER".to_owned(),
        "USER".to_owned(),
        "LOGNAME".to_owned(),
    ]
}

/// The first of the values from `i` on that is not blank.
pub open spec fn first_named(values: Seq<Option<String>>, i: int) -> Option<Seq<char>>
    decreases values.len() - i,
{
    if i < 0 || i >= values.len() {
        None
    } else if values[i] is Some && trimmed(values[i]->0@).len() > 0 {
        Some(trimmed(values[i]->0@))
    } else {
        first_named(values, i + 1)
    }
}

/// Who the client is, as far as the environment tells: the first variable that names one, or else
/// the connection that it comes through.
pub open spec fn identity(values: Seq<Option<String>>, connection: Option<String>) -> Option<
    Seq<char>,
> {
    match first_named(values, 0) {
        Some(name) => Some(name),
        None => if connection is Some && trimmed(connection->0@).len() > 0 {
            Some("ssh:"@ + trimmed(connection->0@))
        } else {
            None
        },
    }
}

/// Who the client is. `values` are those of the variables that name one, and `ssh_connection` that
/// of the connection.
pub fn current_client_identity(values: &Vec<Option<String>>, ssh_connection: &Option<String>) -> (r:
    Option<String>)
    ensures
        text_of(r) == identity(values@, *ssh_connection),
{
    let mut i: usize = 0;
    while i < values.len()
        invariant
            i <= values@.len(),
            first_named(values@, 0) == first_named(values@, i as int),
        decreases values@.len() - i,
    {
        match &values[i] {
            Some(value) => {
                let name = trim(value);
                if !name.as_str().is_empty() {
                    return Some(name);
                }
            },
            None => {},
        }
        i += 1;
    }
    match ssh_connection {
        Some(value) => {
            let connection = trim(value);
            if connection.as_str().is_empty() {
                None
            } else {
                Some(concat2("ssh:", &connection))
            }
        },
        None => None,
    }
}

/// An entry that says no more than its type, when it was made, and for whom.
pub fn new_structured_log_event(
    event_type: String,
    recorded_at_ms: u128,
    client_identity: Option<String>,
) -> (r: StructuredLogEvent)
    ensures
        r.recorded_at_ms == recorded_at_ms,
        r.event_type == event_type,
        r.client_identity == client_identity,
        r.request_id is None,
        r.repo_id is None,
        r.push_id is None,
        r.reconcile_run_id is None,
        r.upstream_id is None,
        r.attempt_id is None,
        r.payload@ == "null"@,
{
    StructuredLogEvent {
        recorded_at_ms,
        event_type,
        request_id: None,
        repo_id: None,
        push_id: None,
        reconcile_run_id: None,
        upstream_id: None,
        attempt_id: None,
        client_identity,
        payload: "null".to_owned(),
    }
}

/// A client is known by the first variable that names one: by the relay's own before those of the
/// login, without the white space around the name.
pub proof fn law_identities(values: Seq<Option<String>>, connection: Option<String>, i: int)
    requires
        0 <= i < values.len(),
        values[i] is Some,
        trimmed(values[i]->0@).len() > 0,
        forall|j: int|
            0 <= j < i ==> (#[trigger] values[j] is None || trimmed(values[j]->0@).len() == 0),
    ensures
        identity(values, connection) == Some(trimmed(values[i]->0@)),
        identity_names()[0] == "GIT_RELAY_CLIENT_IDENTITY"@,
        identity_names()[1] == "GIT_RELAY_AUTHENTICATED_IDENTITY"@,
        identity_names().skip(2) == seq!["SSH_USER"@, "USER"@, "LOGNAME"@],
{
    lemma_first_named(values, 0, i);
    assert(identity_names().skip(2) =~= seq!["SSH_USER"@, "USER"@, "LOGNAME"@]);
}

proof fn lemma_first_named(values: Seq<Option<String>>, from: int, i: int)
    requires
        0 <= from <= i < values.len(),
        values[i] is Some,
        trimmed(values[i]->0@).len() > 0,
        forall|j: int|
            from <= j < i ==> (#[trigger] values[j] is None || trimmed(values[j]->0@).len() == 0),
    ensures
        first_named(values, from) == Some(trimmed(values[i]->0@)),
    decreases i - from,
{
    if from < i {
        assert(values[from] is None || trimmed(values[from]->0@).len() == 0);
        lemma_first_named(values, from + 1, i);
    }
}

/// A client that no variable names is known by its connection, and marked so; one without a
/// connection is not known.
pub proof fn law_unnamed_clients(values: Seq<Option<String>>, connection: Option<String>)
    requires
        forall|j: int|
            0 <= j < values.len() ==> (#[trigger] values[j] is None || trimmed(
                values[j]->0@,
            ).len() == 0),
    ensures
        connection is Some && trimmed(connection->0@).len() > 0 ==> identity(values, connection)
            == Some("ssh:"@ + trimmed(connection->0@)),
        connection is None || trimmed(connection->0@).len() == 0 ==> identity(values, connection)
            is None,
{
    lemma_none_named(values, 0);
}

proof fn lemma_none_named(values: Seq<Option<String>>, from: int)
    requires
        0 <= from <= values.len(),
        forall|j: int|
            from <= j < values.len() ==> (#[trigger] values[j] is None || trimmed(
                values[j]->0@,
            ).len() == 0),
    ensures
        first_named(values, from) is None,
    decreases values.len() - from,
{
    if from < values.len() {
        assert(values[from] is None || trimmed(values[from]->0@).len() == 0);
        lemma_none_named(values, from + 1);
    }
}

} // verus!
