//! Checkpoints of a push at which the relay can be made to crash, so that its recovery can be tried.

use crate::text::{chars_of, pieces, same, split, string_of, texts, trim, trimmed};
use vstd::prelude::*;

verus! {

#[derive(Debug, Clone, Copy, PartialEq, Eq, Structural)]
pub enum CrashCheckpoint {
    BeforePreReceive,
    AfterPreReceiveSuccess,
    AfterReferenceTransactionPrepared,
    AfterReferenceTransactionCommitted,
    AfterReceivePackSuccessBeforeWrapperExit,
    AfterWrapperFlushesResponse,
}

impl CrashCheckpoint {
    pub open spec fn text(self) -> Seq<char> {
        match self {
            CrashCheckpoint::BeforePreReceive => "before_pre_receive"@,
            CrashCheckpoint::AfterPreReceiveSuccess => "after_pre_receive_success"@,
            CrashCheckpoint::AfterReferenceTransactionPrepared =>
            "after_reference_transaction_prepared"@,
            CrashCheckpoint::AfterReferenceTransactionCommitted =>
            "after_reference_transaction_committed"@,
            CrashCheckpoint::AfterReceivePackSuccessBeforeWrapperExit =>
            "after_receive_pack_success_before_wrapper_exit"@,
            CrashCheckpoint::AfterWrapperFlushesResponse => "after_wrapper_flushes_response"@,
        }
    }

    /// The name of the checkpoint.
    pub fn as_str(self) -> (r: &'static str)
        ensures
            r@ == self.text(),
    {
        match self {
            CrashCheckpoint::BeforePreReceive => "before_pre_receive",
            CrashCheckpoint::AfterPreReceiveSuccess => "after_pre_receive_success",
            CrashCheckpoint::AfterReferenceTransactionPrepared => "after_reference_transaction_prepared",
            CrashCheckpoint::AfterReferenceTransactionCommitted => "after_reference_transaction_committed",
            CrashCheckpoint::AfterReceivePackSuccessBeforeWrapperExit => "after_receive_pack_success_before_wrapper_exit",
            CrashCheckpoint::AfterWrapperFlushesResponse => "after_wrapper_flushes_response",
        }
    }
}

/// What stands between the names of a list: a comma, or white space of ASCII.
pub open spec fn is_separator(c: char) -> bool {
    c == ',' || c == ' ' || c == '\t' || c == '\n' || c == '\x0C' || c == '\r'
}

/// `value` with a comma for each separator.
pub open spec fn with_commas(value: Seq<char>) -> Seq<char> {
    Seq::new(
        value.len(),
        |i: int|
            if is_separator(value[i]) {
                ','
            } else {
                value[i]
            },
    )
}

/// Whether a list of names holds the name of a checkpoint.
pub open spec fn names_checkpoint(value: Seq<char>, checkpoint: CrashCheckpoint) -> bool {
    exists|i: int|
        0 <= i < pieces(with_commas(value), ',').len() && trimmed(
            #[trigger] pieces(with_commas(value), ',')[i],
        ) == checkpoint.text()
}

fn commas_for_separators(value: &str) -> (r: String)
    ensures
        r@ == with_commas(value@),
{
    let chars = chars_of(value);
    let mut out: Vec<char> = Vec::new();
    let mut i: usize = 0;
    while i < chars.len()
        invariant
            i <= chars@.len(),
            chars@ == value@,
            out@.len() == i,
            forall|j: int| 0 <= j < i ==> #[trigger] out@[j] == with_commas(value@)[j],
        decreases chars@.len() - i,
    {
        let c = chars[i];
        if c == ' ' || c == '\t' || c == '\n' || c == '\x0C' || c == '\r' {
            out.push(',');
        } else {
            out.push(c);
        }
        i += 1;
    }
    assert(out@ =~= with_commas(value@));
    let text = string_of(&out, 0, out.len());
    assert(text@ =~= with_commas(value@));
    text
}

fn lists_checkpoint(value: &str, checkpoint: CrashCheckpoint) -> (r: bool)
    ensures
        r == names_checkpoint(value@, checkpoint),
{
    let name = checkpoint.as_str();
    let parts = split(&commas_for_separators(value), ',');
    let ghost ps = pieces(with_commas(value@), ',');
    let mut i: usize = 0;
    while i < parts.len()
        invariant
            i <= parts@.len(),
            texts(parts@) == ps,
            ps == pieces(with_commas(value@), ','),
            name@ == checkpoint.text(),
            forall|j: int| 0 <= j < i ==> trimmed(#[trigger] ps[j]) != checkpoint.text(),
        decreases parts@.len() - i,
    {
        assert(ps[i as int] == parts@[i as int]@);
        if same(&trim(&parts[i]), name) {
            return true;
        }
        i += 1;
    }
    false
}

/// Whether a crash is requested at a checkpoint. `value` is the list of names, where there is one.
pub fn crash_requested(value: Option<&str>, checkpoint: CrashCheckpoint) -> (r: bool)
    ensures
        r == (value is Some && names_checkpoint(value->0@, checkpoint)),
{
    match value {
        Some(value) => lists_checkpoint(value, checkpoint),
        None => false,
    }
}

/// Whether checkpoints are watched: a crash is requested or they are logged.
pub fn checkpointing_enabled(crash_list_set: bool, checkpoint_log_set: bool) -> (r: bool)
    ensures
        r == (crash_list_set || checkpoint_log_set),
{
    crash_list_set || checkpoint_log_set
}

/// What is to be done at a checkpoint.
#[derive(Debug, Clone, Copy, PartialEq, Eq)]
pub struct CheckpointSteps {
    /// The line that is added to the log first.
    pub log_line: Option<&'static str>,
    /// Whether the process crashes then.
    pub crash: bool,
}

/// What is to be done at a checkpoint. `crash_list` names the checkpoints to crash at, where there
/// are some.
pub fn hit_checkpoint(
    checkpoint: CrashCheckpoint,
    checkpoint_log_set: bool,
    crash_list: Option<&str>,
) -> (r: CheckpointSteps)
    ensures
        r.log_line is Some == checkpoint_log_set,
        r.log_line matches Some(line) ==> line@ == checkpoint.text(),
        r.crash == (crash_list is Some && names_checkpoint(crash_list->0@, checkpoint)),
{
    CheckpointSteps {
        log_line: if checkpoint_log_set {
            Some(checkpoint.as_str())
        } else {
            None
        },
        crash: crash_requested(crash_list, checkpoint),
    }
}

/// The status with which the process ends at a requested crash.
pub const CRASH_EXIT_CODE: i32 = 97;

/// A checkpoint is named by a list that holds its name between separators, whatever else the list
/// holds, and by its name alone; an empty list names none.
pub proof fn law_listed_checkpoints(
    before: Seq<char>,
    checkpoint: CrashCheckpoint,
    after: Seq<char>,
    a: char,
    b: char,
)
    requires
        is_separator(a),
        is_separator(b),
    ensures
        names_checkpoint(checkpoint.text(), checkpoint),
        names_checkpoint(before + seq![a] + (checkpoint.text() + seq![b] + after), checkpoint),
        !names_checkpoint(Seq::empty(), checkpoint),
{
    let name = checkpoint.text();
    lemma_checkpoint_names(checkpoint);
    let kept = with_commas(name);
    assert(kept =~= name);
    let p = crate::text::not_char(',');
    assert forall|i: int| 0 <= i < name.len() implies p(#[trigger] name[i]) by {
        assert(!is_separator(name[i]));
    }
    crate::text::lemma_run_is(name, p, name.len());
    assert(pieces(name, ',') =~= seq![name]);
    reveal_with_fuel(crate::text::trim_start, 2);
    reveal_with_fuel(crate::text::trim_end, 2);
    assert(trimmed(name) == name);
    assert(pieces(with_commas(name), ',')[0] == name);
    let tail = name + seq![b] + after;
    let whole = before + seq![a] + tail;
    let x = with_commas(before);
    let y = with_commas(after);
    assert(with_commas(tail) =~= name + seq![','] + y);
    assert(with_commas(whole) =~= x + seq![','] + (name + seq![','] + y));
    crate::path::lemma_pieces_joined(x, name + seq![','] + y, ',');
    crate::path::lemma_pieces_joined(name, y, ',');
    let ps = pieces(with_commas(whole), ',');
    assert(ps[pieces(x, ',').len() as int] == name);
    let none = Seq::<char>::empty();
    assert(with_commas(none) =~= none);
    assert(crate::text::run(none, p) == 0);
    assert(pieces(none, ',') =~= seq![none]);
    assert(trimmed(none) =~= none);
}

proof fn lemma_checkpoint_names(checkpoint: CrashCheckpoint)
    ensures
        checkpoint.text().len() > 0,
        forall|i: int| 0 <= i < checkpoint.text().len() ==> !is_separator(#[trigger] checkpoint.text()[i]),
        !crate::text::is_space(checkpoint.text()[0]),
        !crate::text::is_space(checkpoint.text().last()),
{
    reveal_strlit("before_pre_receive");
    reveal_strlit("after_pre_receive_success");
    reveal_strlit("after_reference_transaction_prepared");
    reveal_strlit("after_reference_transaction_committed");
    reveal_strlit("after_receive_pack_success_before_wrapper_exit");
    reveal_strlit("after_wrapper_flushes_response");
}

/// No two checkpoints have the same name.
pub proof fn law_checkpoints_have_names_of_their_own(a: CrashCheckpoint, b: CrashCheckpoint)
    requires
        a.text() == b.text(),
    ensures
        a == b,
{
    reveal_strlit("before_pre_receive");
    reveal_strlit("after_pre_receive_success");
    reveal_strlit("after_reference_transaction_prepared");
    reveal_strlit("after_reference_transaction_committed");
    reveal_strlit("after_receive_pack_success_before_wrapper_exit");
    reveal_strlit("after_wrapper_flushes_response");
    assert("before_pre_receive"@.len() == 18);
    assert("after_pre_receive_success"@.len() == 25);
    assert("after_reference_transaction_prepared"@.len() == 36);
    assert("after_reference_transaction_committed"@.len() == 37);
    assert("after_receive_pack_success_before_wrapper_exit"@.len() == 46);
    assert("after_wrapper_flushes_response"@.len() == 30);
}

} // verus!
