//! The direct inputs that a flake assigns by literal strings.
//!
//! The part of the language that is read is `inputs.<name>.url = "...";` with white space and
//! comments between its parts. Everything else is passed over a character at a time.

use crate::migration::MigrationError;
use crate::sanitize::{alphanumeric, is_alphanumeric};
use crate::text::{chars_of, holds, index_from, not_char, run, string_of};
use vstd::prelude::*;
use vstd::utf8::{encode_scalar, encode_utf8};

verus! {

/// A range of bytes in the UTF-8 form of a text.
#[derive(Debug, Clone, Copy, PartialEq, Eq, Structural)]
pub struct Span {
    pub start: usize,
    pub end: usize,
}

/// A direct input with the string that it is assigned, and where the quoted string stands.
#[derive(Debug, Clone, PartialEq, Eq)]
pub struct DirectInputAssignment {
    pub input_name: String,
    pub value: String,
    pub value_span: Span,
}

/// A direct input, as far as a text says, and where its quoted string stands.
pub struct Assigned {
    pub name: Seq<char>,
    pub value: Seq<char>,
    pub start: int,
    pub end: int,
}

impl DirectInputAssignment {
    pub open spec fn assigned(self) -> Assigned {
        Assigned {
            name: self.input_name@,
            value: self.value@,
            start: self.value_span.start as int,
            end: self.value_span.end as int,
        }
    }
}

pub open spec fn all_assigned(v: Seq<DirectInputAssignment>) -> Seq<Assigned> {
    Seq::new(v.len(), |i: int| v[i].assigned())
}

// ---------------------------------------------------------------------------
// Bytes

/// How many bytes the first `i` characters of a text take.
pub open spec fn byte_offset(s: Seq<char>, i: int) -> int {
    encode_utf8(s.take(i)).len() as int
}

/// The inputs that are found in a text, with their places counted in bytes in place of characters.
pub open spec fn in_bytes(s: Seq<char>, found: Seq<Assigned>) -> Seq<Assigned> {
    Seq::new(
        found.len(),
        |i: int|
            Assigned {
                name: found[i].name,
                value: found[i].value,
                start: byte_offset(s, found[i].start),
                end: byte_offset(s, found[i].end),
            },
    )
}

pub proof fn lemma_encode_sum(a: Seq<char>, b: Seq<char>)
    ensures
        encode_utf8(a + b) == encode_utf8(a) + encode_utf8(b),
    decreases a.len(),
{
    if a.len() == 0 {
        assert(a + b =~= b);
        assert(encode_utf8(a) + encode_utf8(b) =~= encode_utf8(b));
    } else {
        lemma_encode_sum(a.drop_first(), b);
        assert((a + b).drop_first() =~= a.drop_first() + b);
        assert((a + b)[0] == a[0]);
        let first = encode_scalar(a[0] as u32);
        assert(first + (encode_utf8(a.drop_first()) + encode_utf8(b)) =~= (first + encode_utf8(
            a.drop_first(),
        )) + encode_utf8(b));
    }
}

proof fn lemma_next_offset(s: Seq<char>, i: int)
    requires
        0 <= i < s.len(),
    ensures
        byte_offset(s, i + 1) == byte_offset(s, i) + encode_scalar(s[i] as u32).len(),
{
    let one = seq![s[i]];
    assert(s.take(i + 1) =~= s.take(i) + one);
    lemma_encode_sum(s.take(i), one);
    assert(one.drop_first() =~= Seq::empty());
    reveal_with_fuel(encode_utf8, 2);
    assert(encode_utf8(one) =~= encode_scalar(s[i] as u32));
}

pub proof fn lemma_offsets_grow(s: Seq<char>, i: int, j: int)
    requires
        0 <= i <= j <= s.len(),
    ensures
        byte_offset(s, i) <= byte_offset(s, j) <= encode_utf8(s).len(),
        i < j ==> byte_offset(s, i) < byte_offset(s, j),
    decreases j - i,
{
    assert(s =~= s.take(j) + s.skip(j));
    lemma_encode_sum(s.take(j), s.skip(j));
    if i < j {
        lemma_offsets_grow(s, i, j - 1);
        lemma_next_offset(s, j - 1);
    }
}

/// Whether `offsets` holds how many bytes the characters before each place of `s` take.
spec fn offsets_of(s: Seq<char>, offsets: Seq<usize>) -> bool {
    &&& offsets.len() == s.len() + 1
    &&& forall|i: int| 0 <= i <= s.len() ==> #[trigger] offsets[i] == byte_offset(s, i)
}

fn byte_offsets(source: &str, chars: &Vec<char>) -> (r: Vec<usize>)
    requires
        chars@ == source@,
    ensures
        offsets_of(chars@, r@),
{
    let total: usize = source.as_bytes().len();
    let mut offsets: Vec<usize> = Vec::new();
    let mut at: usize = 0;
    let mut i: usize = 0;
    assert(chars@.take(0) =~= Seq::empty());
    offsets.push(at);
    while i < chars.len()
        invariant
            i <= chars@.len(),
            total == encode_utf8(chars@).len(),
            offsets@.len() == i + 1,
            at == byte_offset(chars@, i as int),
            forall|k: int| 0 <= k <= i ==> #[trigger] offsets@[k] == byte_offset(chars@, k),
        decreases chars@.len() - i,
    {
        let n: u32 = chars[i] as u32;
        proof {
            vstd::utf8::char_is_scalar(chars@[i as int]);
            lemma_next_offset(chars@, i as int);
            lemma_offsets_grow(chars@, i as int, i + 1);
            lemma_offsets_grow(chars@, i + 1, chars@.len() as int);
        }
        let width: usize = if n < 0x80 {
            1
        } else if n < 0x800 {
            2
        } else if n < 0x10000 {
            3
        } else {
            4
        };
        at += width;
        i += 1;
        offsets.push(at);
    }
    offsets
}

// ---------------------------------------------------------------------------
// Characters

/// White space of the language.
pub open spec fn is_blank_char(c: char) -> bool {
    c == ' ' || c == '\t' || c == '\n' || c == '\x0C' || c == '\r'
}

fn blank_char(c: char) -> (r: bool)
    ensures
        r == is_blank_char(c),
{
    c == ' ' || c == '\t' || c == '\n' || c == '\x0C' || c == '\r'
}

/// A character of a name.
pub open spec fn is_identifier_char(c: char) -> bool {
    is_alphanumeric(c) || c == '_' || c == '-'
}

pub fn identifier_char(c: char) -> (r: bool)
    ensures
        r == is_identifier_char(c),
{
    alphanumeric(c) || c == '_' || c == '-'
}

pub open spec fn in_identifier() -> spec_fn(char) -> bool {
    |c: char| is_identifier_char(c)
}

/// What a character contributes to the value of a literal: itself where it is one of ASCII, and
/// otherwise one character for each byte of its UTF-8 form.
pub open spec fn byte_chars(c: char) -> Seq<char> {
    let n = c as u32;
    if n < 0x80 {
        seq![c]
    } else if n < 0x800 {
        seq![((0xC0 + n / 64) as u8) as char, ((0x80 + n % 64) as u8) as char]
    } else if n < 0x10000 {
        seq![
            ((0xE0 + n / 4096) as u8) as char,
            ((0x80 + n / 64 % 64) as u8) as char,
            ((0x80 + n % 64) as u8) as char,
        ]
    } else {
        seq![
            ((0xF0 + n / 262144) as u8) as char,
            ((0x80 + n / 4096 % 64) as u8) as char,
            ((0x80 + n / 64 % 64) as u8) as char,
            ((0x80 + n % 64) as u8) as char,
        ]
    }
}

fn push_byte_chars(out: &mut String, c: char)
    ensures
        final(out)@ == old(out)@ + byte_chars(c),
{
    let n: u32 = c as u32;
    let ghost before = out@;
    if n < 0x80 {
        out.push(c);
        assert(out@ =~= before + byte_chars(c));
    } else if n < 0x800 {
        out.push((0xC0 + n / 64) as u8 as char);
        out.push((0x80 + n % 64) as u8 as char);
        assert(out@ =~= before + byte_chars(c));
    } else if n < 0x10000 {
        out.push((0xE0 + n / 4096) as u8 as char);
        out.push((0x80 + n / 64 % 64) as u8 as char);
        out.push((0x80 + n % 64) as u8 as char);
        assert(out@ =~= before + byte_chars(c));
    } else {
        out.push((0xF0 + n / 262144) as u8 as char);
        out.push((0x80 + n / 4096 % 64) as u8 as char);
        out.push((0x80 + n / 64 % 64) as u8 as char);
        out.push((0x80 + n % 64) as u8 as char);
        assert(out@ =~= before + byte_chars(c));
    }
}

// ---------------------------------------------------------------------------
// White space and comments

/// `n` more than `rest`, where there is one.
pub open spec fn longer(n: nat, rest: Option<nat>) -> Option<nat> {
    match rest {
        Some(m) => Some(n + m),
        None => None,
    }
}

/// How much of `s` a block comment takes up to its end, once it was opened.
pub open spec fn comment_rest(s: Seq<char>) -> Option<nat>
    decreases s.len(),
{
    if s.len() < 2 {
        None
    } else if s[0] == '*' && s[1] == '/' {
        Some(2)
    } else {
        longer(1, comment_rest(s.skip(1)))
    }
}

/// How much of `s`, from its start, is white space and comments; `None` where a block comment
/// does not end.
pub open spec fn noise(s: Seq<char>) -> Option<nat>
    decreases s.len(),
{
    if s.len() == 0 {
        Some(0)
    } else if is_blank_char(s[0]) {
        longer(1, noise(s.skip(1)))
    } else if s[0] == '#' {
        proof {
            crate::text::lemma_run(s.skip(1), not_char('\n'));
        }
        let n = run(s.skip(1), not_char('\n'));
        longer(1 + n, noise(s.skip(1).skip(n as int)))
    } else if s[0] == '/' && s.len() > 1 && s[1] == '*' {
        proof {
            lemma_comment_rest(s.skip(2));
        }
        match comment_rest(s.skip(2)) {
            Some(n) => longer(2 + n, noise(s.skip(2).skip(n as int))),
            None => None,
        }
    } else {
        Some(0)
    }
}

/// Where the white space and comments at `at` end.
pub open spec fn gap(s: Seq<char>, at: int) -> Option<int> {
    match noise(s.skip(at)) {
        Some(n) => Some(at + n),
        None => None,
    }
}

pub proof fn lemma_comment_rest(s: Seq<char>)
    ensures
        comment_rest(s) matches Some(n) ==> 2 <= n <= s.len(),
    decreases s.len(),
{
    if s.len() >= 2 && !(s[0] == '*' && s[1] == '/') {
        lemma_comment_rest(s.skip(1));
    }
}

proof fn lemma_noise(s: Seq<char>)
    ensures
        noise(s) matches Some(n) ==> n <= s.len(),
    decreases s.len(),
{
    if s.len() > 0 {
        if is_blank_char(s[0]) {
            lemma_noise(s.skip(1));
        } else if s[0] == '#' {
            crate::text::lemma_run(s.skip(1), not_char('\n'));
            lemma_noise(s.skip(1).skip(run(s.skip(1), not_char('\n')) as int));
        } else if s[0] == '/' && s.len() > 1 && s[1] == '*' {
            lemma_comment_rest(s.skip(2));
            if comment_rest(s.skip(2)) is Some {
                lemma_noise(s.skip(2).skip(comment_rest(s.skip(2))->0 as int));
            }
        }
    }
}

/// Where the block comment that was opened before `from` ends.
fn comment_end(chars: &Vec<char>, from: usize) -> (r: Option<usize>)
    requires
        from <= chars@.len(),
    ensures
        match r {
            Some(end) => comment_rest(chars@.skip(from as int)) == Some((end - from) as nat) && from
                < end <= chars@.len(),
            None => comment_rest(chars@.skip(from as int)) is None,
        },
{
    let len: usize = chars.len();
    let mut i: usize = from;
    while i < len && i + 1 < len && !(chars[i] == '*' && chars[i + 1] == '/')
        invariant
            from <= i <= chars@.len(),
            len == chars@.len(),
            comment_rest(chars@.skip(from as int)) == longer(
                (i - from) as nat,
                comment_rest(chars@.skip(i as int)),
            ),
        decreases chars@.len() - i,
    {
        assert(chars@.skip(i as int).skip(1) =~= chars@.skip(i + 1));
        i += 1;
    }
    if i >= len || i + 1 >= len {
        None
    } else {
        Some(i + 2)
    }
}

/// Where the white space and comments at `from` end; an error where a block comment does not.
pub fn skip_noise(chars: &Vec<char>, from: usize) -> (r: Result<usize, MigrationError>)
    requires
        from <= chars@.len(),
    ensures
        match r {
            Ok(end) => gap(chars@, from as int) == Some(end as int) && from <= end <= chars@.len(),
            Err(error) => gap(chars@, from as int) is None && unsupported(
                error,
                "<unknown>"@,
                "unterminated block comment"@,
            ),
        },
{
    let len: usize = chars.len();
    let mut i: usize = from;
    loop
        invariant
            from <= i <= chars@.len(),
            len == chars@.len(),
            noise(chars@.skip(from as int)) == longer(
                (i - from) as nat,
                noise(chars@.skip(i as int)),
            ),
        decreases chars@.len() - i,
    {
        let ghost tail = chars@.skip(i as int);
        if i >= len {
            return Ok(i);
        }
        if blank_char(chars[i]) {
            assert(tail.skip(1) =~= chars@.skip(i + 1));
            i += 1;
        } else if chars[i] == '#' {
            let end = index_from(chars, i + 1, '\n');
            assert(tail.skip(1) =~= chars@.skip(i + 1));
            assert(tail.skip(1).skip(end - i - 1) =~= chars@.skip(end as int));
            i = end;
        } else if chars[i] == '/' && i + 1 < len && chars[i + 1] == '*' {
            assert(tail.skip(2) =~= chars@.skip(i + 2));
            match comment_end(chars, i + 2) {
                Some(end) => {
                    assert(tail.skip(2).skip(end - i - 2) =~= chars@.skip(end as int));
                    i = end;
                },
                None => {
                    return Err(
                        MigrationError::UnsupportedExpression {
                            input_name: "<unknown>".to_owned(),
                            detail: "unterminated block comment".to_owned(),
                        },
                    );
                },
            }
        } else {
            return Ok(i);
        }
    }
}

/// Whether `error` says that the expression of the input `name` is not supported.
pub open spec fn unsupported(error: MigrationError, name: Seq<char>, detail: Seq<char>) -> bool {
    error is UnsupportedExpression && error->UnsupportedExpression_input_name@ == name
        && error->UnsupportedExpression_detail@ == detail
}

// ---------------------------------------------------------------------------
// Literals

/// What the text after an opening quote holds: a value up to its closing quote, an interpolation,
/// or no closing quote.
pub enum Literal {
    Closed { value: Seq<char>, len: nat },
    Interpolated,
    Open,
}

/// `literal` after `n` characters that stand for `value`.
pub open spec fn extended(value: Seq<char>, n: nat, literal: Literal) -> Literal {
    match literal {
        Literal::Closed { value: rest, len } => Literal::Closed {
            value: value + rest,
            len: n + len,
        },
        other => other,
    }
}

/// What a character after a backslash stands for.
pub open spec fn unescaped(c: char) -> Seq<char> {
    if c == 'n' {
        seq!['\n']
    } else if c == 'r' {
        seq!['\r']
    } else if c == 't' {
        seq!['\t']
    } else {
        byte_chars(c)
    }
}

/// The literal whose opening quote stands before `s`.
pub open spec fn literal(s: Seq<char>) -> Literal
    decreases s.len(),
{
    if s.len() == 0 {
        Literal::Open
    } else if s[0] == '"' {
        Literal::Closed { value: Seq::empty(), len: 1 }
    } else if s[0] == '\\' {
        if s.len() == 1 {
            Literal::Open
        } else {
            extended(unescaped(s[1]), 2, literal(s.skip(2)))
        }
    } else if s[0] == '$' && s.len() > 1 && s[1] == '{' {
        Literal::Interpolated
    } else {
        extended(byte_chars(s[0]), 1, literal(s.skip(1)))
    }
}

proof fn lemma_literal(s: Seq<char>)
    ensures
        literal(s) matches Literal::Closed { value, len } ==> 1 <= len <= s.len(),
    decreases s.len(),
{
    if s.len() > 0 && s[0] != '"' {
        if s[0] == '\\' {
            if s.len() > 1 {
                lemma_literal(s.skip(2));
            }
        } else if !(s[0] == '$' && s.len() > 1 && s[1] == '{') {
            lemma_literal(s.skip(1));
        }
    }
}

/// The value of the literal whose opening quote stands at `from`, and where it ends.
fn parse_string_literal(chars: &Vec<char>, from: usize, input_name: &str) -> (r: Result<
    (String, usize),
    MigrationError,
>)
    requires
        from <= chars@.len(),
    ensures
        match r {
            Ok((value, end)) => {
                &&& from < chars@.len()
                &&& chars@[from as int] == '"'
                &&& from < end <= chars@.len()
                &&& literal(chars@.skip(from + 1)) == (Literal::Closed {
                    value: value@,
                    len: (end - from - 1) as nat,
                })
            },
            Err(error) => if from >= chars@.len() || chars@[from as int] != '"' {
                unsupported(
                    error,
                    input_name@,
                    "direct input url must be a double-quoted literal string"@,
                )
            } else {
                match literal(chars@.skip(from + 1)) {
                    Literal::Closed { .. } => false,
                    Literal::Interpolated => unsupported(
                        error,
                        input_name@,
                        "interpolated strings are outside the supported literal grammar"@,
                    ),
                    Literal::Open => unsupported(error, input_name@, "unterminated string literal"@),
                }
            },
        },
{
    let len: usize = chars.len();
    if from >= len || chars[from] != '"' {
        return Err(
            MigrationError::UnsupportedExpression {
                input_name: input_name.to_owned(),
                detail: "direct input url must be a double-quoted literal string".to_owned(),
            },
        );
    }
    let mut value = String::new();
    let mut i: usize = from + 1;
    let ghost whole = literal(chars@.skip(from + 1));
    proof {
        assert(Seq::<char>::empty() + (whole->Closed_value) =~= whole->Closed_value);
    }
    while i < len
        invariant
            from < i <= chars@.len(),
            len == chars@.len(),
            from < chars@.len(),
            chars@[from as int] == '"',
            whole == literal(chars@.skip(from + 1)),
            whole == extended(value@, (i - from - 1) as nat, literal(chars@.skip(i as int))),
        decreases chars@.len() - i,
    {
        let ghost tail = chars@.skip(i as int);
        let ghost before = value@;
        let ghost start = i;
        let c = chars[i];
        if c == '"' {
            assert(before + Seq::<char>::empty() =~= before);
            return Ok((value, i + 1));
        }
        if c == '\\' {
            if i + 1 >= len {
                return Err(
                    MigrationError::UnsupportedExpression {
                        input_name: input_name.to_owned(),
                        detail: "unterminated string literal".to_owned(),
                    },
                );
            }
            let next = chars[i + 1];
            if next == 'n' {
                value.push('\n');
            } else if next == 'r' {
                value.push('\r');
            } else if next == 't' {
                value.push('\t');
            } else {
                push_byte_chars(&mut value, next);
            }
            i += 2;
            proof {
                assert(value@ =~= before + unescaped(next));
                assert(tail.skip(2) =~= chars@.skip(i as int));
                let rest = literal(chars@.skip(i as int));
                assert((before + unescaped(next)) + rest->Closed_value =~= before + (unescaped(next)
                    + rest->Closed_value));
            }
        } else if c == '$' && i + 1 < len && chars[i + 1] == '{' {
            return Err(
                MigrationError::UnsupportedExpression {
                    input_name: input_name.to_owned(),
                    detail: "interpolated strings are outside the supported literal grammar".to_owned(),
                },
            );
        } else {
            push_byte_chars(&mut value, c);
            i += 1;
            proof {
                assert(tail.skip(1) =~= chars@.skip(i as int));
                let rest = literal(chars@.skip(i as int));
                assert((before + byte_chars(c)) + rest->Closed_value =~= before + (byte_chars(c)
                    + rest->Closed_value));
            }
        }
    }
    Err(
        MigrationError::UnsupportedExpression {
            input_name: input_name.to_owned(),
            detail: "unterminated string literal".to_owned(),
        },
    )
}

// ---------------------------------------------------------------------------
// Assignments

/// Whether the word `w` stands at `at` in `s`, and is not the start of a longer name.
pub open spec fn keyword(s: Seq<char>, at: int, w: Seq<char>) -> bool {
    &&& at + w.len() <= s.len()
    &&& s.subrange(at, at + w.len()) == w
    &&& at + w.len() < s.len() ==> !is_identifier_char(s[at + w.len()])
}

/// Whether `c` stands at `at` in `s`.
pub open spec fn char_at(s: Seq<char>, at: int, c: char) -> bool {
    at < s.len() && s[at] == c
}

/// Where the name at `at` in `s` ends.
pub open spec fn identifier_end(s: Seq<char>, at: int) -> int {
    at + run(s.skip(at), in_identifier())
}

/// The words that an assignment starts with, and that its last part is.
pub open spec fn inputs_word() -> Seq<char> {
    seq!['i', 'n', 'p', 'u', 't', 's']
}

pub open spec fn url_word() -> Seq<char> {
    seq!['u', 'r', 'l']
}

/// What stands at a place in a text: an assignment, and where it ends; something that starts like
/// one and is not supported; or anything else.
pub enum Step {
    Found { assigned: Assigned, next: int },
    Flawed { name: Seq<char>, detail: Seq<char> },
    Other,
}

pub open spec fn open_comment() -> Step {
    Step::Flawed { name: "<unknown>"@, detail: "unterminated block comment"@ }
}

/// What stands at `at` in `s`.
#[verifier::opaque]
pub open spec fn step(s: Seq<char>, at: int) -> Step {
    if !keyword(s, at, inputs_word()) {
        Step::Other
    } else {
        match gap(s, at + 6) {
            None => open_comment(),
            Some(dot) => if char_at(s, dot, '.') {
                match gap(s, dot + 1) {
                    None => open_comment(),
                    Some(name_at) => step_at_name(s, name_at),
                }
            } else {
                Step::Other
            },
        }
    }
}

/// What an assignment is whose part after `inputs.` starts at `at`.
#[verifier::opaque]
pub open spec fn step_at_name(s: Seq<char>, at: int) -> Step {
    let end = identifier_end(s, at);
    if end == at {
        Step::Flawed { name: "<unknown>"@, detail: "expected direct input name after inputs."@ }
    } else {
        match gap(s, end) {
            None => open_comment(),
            Some(dot) => if char_at(s, dot, '.') {
                match gap(s, dot + 1) {
                    None => open_comment(),
                    Some(url) => step_at_url(s, s.subrange(at, end), url),
                }
            } else {
                Step::Other
            },
        }
    }
}

/// What an assignment is whose part after `inputs.<name>.` starts at `at`.
pub open spec fn step_at_url(s: Seq<char>, name: Seq<char>, at: int) -> Step {
    if !keyword(s, at, url_word()) {
        Step::Other
    } else {
        match gap(s, at + 3) {
            None => open_comment(),
            Some(equals) => if char_at(s, equals, '=') {
                match gap(s, equals + 1) {
                    None => open_comment(),
                    Some(quote) => step_at_value(s, name, quote),
                }
            } else {
                Step::Flawed { name, detail: "expected '=' after direct input url path"@ }
            },
        }
    }
}

/// What an assignment is whose part after `inputs.<name>.url =` starts at `at`.
pub open spec fn step_at_value(s: Seq<char>, name: Seq<char>, at: int) -> Step {
    if !char_at(s, at, '"') {
        Step::Flawed {
            name,
            detail: "direct input url must be a double-quoted literal string"@,
        }
    } else {
        match literal(s.skip(at + 1)) {
            Literal::Interpolated => Step::Flawed {
                name,
                detail: "interpolated strings are outside the supported literal grammar"@,
            },
            Literal::Open => Step::Flawed { name, detail: "unterminated string literal"@ },
            Literal::Closed { value, len } => {
                let end = at + 1 + len;
                match gap(s, end) {
                    None => open_comment(),
                    Some(semicolon) => if char_at(s, semicolon, ';') {
                        Step::Found {
                            assigned: Assigned { name, value, start: at, end },
                            next: semicolon + 1,
                        }
                    } else {
                        Step::Flawed {
                            name,
                            detail: "expected ';' after direct input url assignment"@,
                        }
                    },
                }
            },
        }
    }
}

pub proof fn lemma_gap(s: Seq<char>, at: int)
    requires
        0 <= at <= s.len(),
    ensures
        gap(s, at) matches Some(end) ==> at <= end <= s.len(),
{
    lemma_noise(s.skip(at));
}

pub proof fn lemma_identifier_end(s: Seq<char>, at: int)
    requires
        0 <= at <= s.len(),
    ensures
        at <= identifier_end(s, at) <= s.len(),
        forall|i: int|
            at <= i < identifier_end(s, at) ==> is_identifier_char(#[trigger] s[i]),
        identifier_end(s, at) < s.len() ==> !is_identifier_char(s[identifier_end(s, at)]),
{
    let tail = s.skip(at);
    crate::text::lemma_run(tail, in_identifier());
    let end = identifier_end(s, at);
    assert forall|i: int| at <= i < end implies is_identifier_char(#[trigger] s[i]) by {
        assert(in_identifier()(tail[i - at]));
    }
    if end < s.len() {
        assert(!in_identifier()(tail[end - at]));
    }
}

proof fn lemma_step_at_value(s: Seq<char>, name: Seq<char>, at: int)
    requires
        0 <= at <= s.len(),
    ensures
        step_at_value(s, name, at) matches Step::Found { assigned, next } ==> at == assigned.start
            && assigned.start < assigned.end < next <= s.len(),
{
    if char_at(s, at, '"') {
        lemma_literal(s.skip(at + 1));
        if literal(s.skip(at + 1)) is Closed {
            lemma_gap(s, at + 1 + literal(s.skip(at + 1))->len);
        }
    }
}

proof fn lemma_step_at_url(s: Seq<char>, name: Seq<char>, at: int)
    requires
        0 <= at <= s.len(),
    ensures
        step_at_url(s, name, at) matches Step::Found { assigned, next } ==> at + 4
            <= assigned.start < assigned.end < next <= s.len(),
{
    if keyword(s, at, url_word()) {
        lemma_gap(s, at + 3);
        if gap(s, at + 3) is Some {
            let equals = gap(s, at + 3)->0;
            if char_at(s, equals, '=') {
                lemma_gap(s, equals + 1);
                if gap(s, equals + 1) is Some {
                    lemma_step_at_value(s, name, gap(s, equals + 1)->0);
                }
            }
        }
    }
}

proof fn lemma_step_at_name(s: Seq<char>, at: int)
    requires
        0 <= at <= s.len(),
    ensures
        step_at_name(s, at) matches Step::Found { assigned, next } ==> at + 6 <= assigned.start
            < assigned.end < next <= s.len(),
{
    reveal(step_at_name);
    lemma_identifier_end(s, at);
    let end = identifier_end(s, at);
    lemma_gap(s, end);
    if gap(s, end) is Some {
        let dot = gap(s, end)->0;
        if char_at(s, dot, '.') {
            lemma_gap(s, dot + 1);
            if gap(s, dot + 1) is Some {
                lemma_step_at_url(s, s.subrange(at, end), gap(s, dot + 1)->0);
            }
        }
    }
}

pub proof fn lemma_step(s: Seq<char>, at: int)
    requires
        0 <= at <= s.len(),
    ensures
        step(s, at) matches Step::Found { assigned, next } ==> at + 13 <= assigned.start
            < assigned.end < next <= s.len(),
{
    reveal(step);
    if keyword(s, at, inputs_word()) {
        lemma_gap(s, at + 6);
        if gap(s, at + 6) is Some {
            let dot = gap(s, at + 6)->0;
            if char_at(s, dot, '.') {
                lemma_gap(s, dot + 1);
                if gap(s, dot + 1) is Some {
                    lemma_step_at_name(s, gap(s, dot + 1)->0);
                }
            }
        }
    }
}

/// What a text says of its direct inputs: each that is assigned a literal, in the order of the
/// text, or the first that is not supported.
pub enum Scan {
    Done(Seq<Assigned>),
    Flawed { name: Seq<char>, detail: Seq<char> },
}

/// `scan` after the assignments `before`.
pub open spec fn preceded(before: Seq<Assigned>, scan: Scan) -> Scan {
    match scan {
        Scan::Done(rest) => Scan::Done(before + rest),
        flawed => flawed,
    }
}

/// What `s` says of its direct inputs from `at` on.
pub open spec fn scan(s: Seq<char>, at: nat) -> Scan
    decreases s.len() - at,
{
    proof {
        if at <= s.len() {
            lemma_gap(s, at as int);
            if gap(s, at as int) is Some {
                lemma_step(s, gap(s, at as int)->0);
            }
        }
    }
    if at >= s.len() {
        Scan::Done(Seq::empty())
    } else {
        match gap(s, at as int) {
            None => Scan::Flawed { name: "<unknown>"@, detail: "unterminated block comment"@ },
            Some(here) => if here >= s.len() {
                Scan::Done(Seq::empty())
            } else {
                match step(s, here) {
                    Step::Other => scan(s, (here + 1) as nat),
                    Step::Flawed { name, detail } => Scan::Flawed { name, detail },
                    Step::Found { assigned, next } => preceded(
                        seq![assigned],
                        scan(s, next as nat),
                    ),
                }
            },
        }
    }
}

// ---------------------------------------------------------------------------
// The parser

/// Whether `word` stands at `at`, and is not the start of a longer name.
fn keyword_at(chars: &Vec<char>, at: usize, word: &Vec<char>) -> (r: bool)
    requires
        at <= chars@.len(),
    ensures
        r == keyword(chars@, at as int, word@),
        r ==> at + word@.len() <= usize::MAX,
{
    if word.len() > chars.len() - at {
        return false;
    }
    let end: usize = at + word.len();
    let mut i: usize = 0;
    while i < word.len()
        invariant
            i <= word@.len(),
            end == at + word@.len(),
            end <= chars@.len(),
            forall|j: int| 0 <= j < i ==> chars@[at + j] == #[trigger] word@[j],
        decreases word@.len() - i,
    {
        if chars[at + i] != word[i] {
            proof {
                assert(chars@.subrange(at as int, end as int)[i as int] == chars@[at + i]);
            }
            return false;
        }
        i += 1;
    }
    assert(chars@.subrange(at as int, end as int) =~= word@);
    if end < chars.len() {
        !identifier_char(chars[end])
    } else {
        true
    }
}

/// Where the name at `at` ends.
fn name_end(chars: &Vec<char>, at: usize) -> (r: usize)
    requires
        at <= chars@.len(),
    ensures
        r == identifier_end(chars@, at as int),
        at <= r <= chars@.len(),
{
    let ghost tail = chars@.skip(at as int);
    let mut i: usize = at;
    while i < chars.len() && identifier_char(chars[i])
        invariant
            at <= i <= chars@.len(),
            tail == chars@.skip(at as int),
            forall|j: int| 0 <= j < i - at ==> is_identifier_char(#[trigger] tail[j]),
        decreases chars@.len() - i,
    {
        assert(tail[i - at] == chars@[i as int]);
        i += 1;
    }
    proof {
        if i < chars@.len() {
            assert(tail[i - at] == chars@[i as int]);
        }
        crate::text::lemma_run_is(tail, in_identifier(), (i - at) as nat);
    }
    i
}

fn stands_at(chars: &Vec<char>, at: usize, c: char) -> (r: bool)
    requires
        at <= chars@.len(),
    ensures
        r == char_at(chars@, at as int, c),
        r ==> at < usize::MAX,
{
    at < chars.len() && chars[at] == c
}

fn unsupported_expression(input_name: &str, detail: &str) -> (r: MigrationError)
    ensures
        unsupported(r, input_name@, detail@),
{
    MigrationError::UnsupportedExpression {
        input_name: input_name.to_owned(),
        detail: detail.to_owned(),
    }
}

/// Whether `r` is what `expected` says of a place in `s`: the assignment and where it ends, `None`
/// where there is none, or the error.
spec fn parsed_as(
    s: Seq<char>,
    r: Result<Option<(DirectInputAssignment, usize)>, MigrationError>,
    expected: Step,
) -> bool {
    match r {
        Ok(Some((assignment, end))) => {
            &&& expected is Found
            &&& expected->next == end
            &&& all_assigned(seq![assignment]) == in_bytes(s, seq![expected->assigned])
        },
        Ok(None) => expected is Other,
        Err(error) => expected is Flawed && unsupported(
            error,
            expected->Flawed_name,
            expected->Flawed_detail,
        ),
    }
}

/// The assignment at `at`, where there is one.
fn parse_assignment(chars: &Vec<char>, offsets: &Vec<usize>, at: usize) -> (r: Result<
    Option<(DirectInputAssignment, usize)>,
    MigrationError,
>)
    requires
        offsets_of(chars@, offsets@),
        at <= chars@.len(),
    ensures
        parsed_as(chars@, r, step(chars@, at as int)),
        r matches Ok(Some(found)) ==> at < found.1 <= chars@.len(),
{
    proof {
        reveal(step);
        reveal(step_at_name);
        lemma_step(chars@, at as int);
    }
    let inputs = vec!['i', 'n', 'p', 'u', 't', 's'];
    assert(inputs@ =~= inputs_word());
    if !keyword_at(chars, at, &inputs) {
        return Ok(None);
    }
    let dot = match skip_noise(chars, at + 6) {
        Ok(end) => end,
        Err(error) => return Err(error),
    };
    if !stands_at(chars, dot, '.') {
        return Ok(None);
    }
    let name_at = match skip_noise(chars, dot + 1) {
        Ok(end) => end,
        Err(error) => return Err(error),
    };
    let end = name_end(chars, name_at);
    if end == name_at {
        return Err(
            unsupported_expression("<unknown>", "expected direct input name after inputs."),
        );
    }
    let input_name = string_of(chars, name_at, end);
    let dot = match skip_noise(chars, end) {
        Ok(end) => end,
        Err(error) => return Err(error),
    };
    if !stands_at(chars, dot, '.') {
        return Ok(None);
    }
    let url_at = match skip_noise(chars, dot + 1) {
        Ok(end) => end,
        Err(error) => return Err(error),
    };
    let url = vec!['u', 'r', 'l'];
    assert(url@ =~= url_word());
    if !keyword_at(chars, url_at, &url) {
        return Ok(None);
    }
    parse_value(chars, offsets, url_at + 3, input_name)
}

/// The assignment of `input_name` whose part after `inputs.<name>.url` starts at `at`.
fn parse_value(
    chars: &Vec<char>,
    offsets: &Vec<usize>,
    at: usize,
    input_name: String,
) -> (r: Result<Option<(DirectInputAssignment, usize)>, MigrationError>)
    requires
        offsets_of(chars@, offsets@),
        3 <= at <= chars@.len(),
        keyword(chars@, at - 3, url_word()),
    ensures
        parsed_as(chars@, r, step_at_url(chars@, input_name@, at - 3)),
{
    let equals = match skip_noise(chars, at) {
        Ok(end) => end,
        Err(error) => return Err(error),
    };
    if !stands_at(chars, equals, '=') {
        return Err(
            unsupported_expression(&input_name, "expected '=' after direct input url path"),
        );
    }
    let quote = match skip_noise(chars, equals + 1) {
        Ok(end) => end,
        Err(error) => return Err(error),
    };
    let (value, end) = match parse_string_literal(chars, quote, &input_name) {
        Ok(parsed) => parsed,
        Err(error) => return Err(error),
    };
    let semicolon = match skip_noise(chars, end) {
        Ok(end) => end,
        Err(error) => return Err(error),
    };
    if !stands_at(chars, semicolon, ';') {
        return Err(
            unsupported_expression(&input_name, "expected ';' after direct input url assignment"),
        );
    }
    let value_span = Span { start: offsets[quote], end: offsets[end] };
    let assignment = DirectInputAssignment { input_name, value, value_span };
    proof {
        let here = step_at_url(chars@, input_name@, at - 3);
        assert(all_assigned(seq![assignment]) =~= in_bytes(chars@, seq![here->assigned]));
    }
    Ok(Some((assignment, semicolon + 1)))
}

/// What a text says of its direct inputs, with their places counted in bytes.
pub open spec fn direct_inputs(s: Seq<char>) -> Scan {
    match scan(s, 0) {
        Scan::Done(found) => Scan::Done(in_bytes(s, found)),
        flawed => flawed,
    }
}

/// The direct inputs that a flake assigns literal strings.
pub fn parse_direct_input_assignments(source: &str) -> (r: Result<
    Vec<DirectInputAssignment>,
    MigrationError,
>)
    ensures
        match direct_inputs(source@) {
            Scan::Done(found) => r is Ok && all_assigned(r->Ok_0@) == found,
            Scan::Flawed { name, detail } => r is Err && unsupported(r->Err_0, name, detail),
        },
{
    let chars = chars_of(source);
    let offsets = byte_offsets(source, &chars);
    let mut assignments: Vec<DirectInputAssignment> = Vec::new();
    let mut i: usize = 0;
    let ghost mut found = Seq::<Assigned>::empty();
    proof {
        assert(all_assigned(assignments@) =~= in_bytes(source@, found));
        let whole = scan(source@, 0);
        assert(found + whole->Done_0 =~= whole->Done_0);
    }
    while i < chars.len()
        invariant
            i <= chars@.len(),
            chars@ == source@,
            offsets_of(chars@, offsets@),
            scan(source@, 0) == preceded(found, scan(source@, i as nat)),
            all_assigned(assignments@) == in_bytes(source@, found),
        decreases chars@.len() - i,
    {
        let here = match skip_noise(&chars, i) {
            Ok(end) => end,
            Err(error) => return Err(error),
        };
        if here >= chars.len() {
            assert(found + Seq::<Assigned>::empty() =~= found);
            return Ok(assignments);
        }
        let ghost before = assignments@;
        let ghost earlier = found;
        match parse_assignment(&chars, &offsets, here) {
            Ok(Some((assignment, next))) => {
                proof {
                    let rest = scan(source@, next as nat)->Done_0;
                    let assigned = step(chars@, here as int)->assigned;
                    found = earlier.push(assigned);
                    assert(found + rest =~= earlier + (seq![assigned] + rest));
                    assert(all_assigned(before.push(assignment)) =~= all_assigned(before)
                        + all_assigned(seq![assignment]));
                    assert(in_bytes(source@, found) =~= in_bytes(source@, earlier) + in_bytes(
                        source@,
                        seq![assigned],
                    ));
                }
                assignments.push(assignment);
                i = next;
            },
            Ok(None) => {
                i = here + 1;
            },
            Err(error) => return Err(error),
        }
    }
    assert(found + Seq::<Assigned>::empty() =~= found);
    Ok(assignments)
}

// ---------------------------------------------------------------------------
// Rewriting

/// How a character is written in a literal.
pub open spec fn guard(c: char) -> Seq<char> {
    if c == '\\' {
        seq!['\\', '\\']
    } else if c == '"' {
        seq!['\\', '"']
    } else {
        seq![c]
    }
}

pub open spec fn guarded(value: Seq<char>) -> Seq<char>
    decreases value.len(),
{
    if value.len() == 0 {
        Seq::empty()
    } else {
        guard(value[0]) + guarded(value.skip(1))
    }
}

/// `value` as a literal: in quotes, with a backslash before each quote and backslash.
pub open spec fn quoted(value: Seq<char>) -> Seq<char> {
    seq!['"'] + guarded(value) + seq!['"']
}

/// `value` as a literal.
pub fn quote_string(value: &str) -> (r: String)
    ensures
        r@ == quoted(value@),
{
    let chars = chars_of(value);
    let mut out = String::new();
    out.push('"');
    let mut i: usize = 0;
    assert(chars@.skip(0) =~= value@);
    while i < chars.len()
        invariant
            i <= chars@.len(),
            chars@ == value@,
            seq!['"'] + guarded(value@) == out@ + guarded(value@.skip(i as int)),
        decreases chars@.len() - i,
    {
        let ghost before = out@;
        let c = chars[i];
        if c == '\\' || c == '"' {
            out.push('\\');
        }
        out.push(c);
        i += 1;
        proof {
            assert(value@.skip(i - 1).skip(1) =~= value@.skip(i as int));
            assert(out@ =~= before + guard(c));
            assert(before + (guard(c) + guarded(value@.skip(i as int))) =~= (before + guard(c))
                + guarded(value@.skip(i as int)));
        }
    }
    out.push('"');
    proof {
        assert(value@.skip(i as int) =~= Seq::empty());
        assert(out@ =~= quoted(value@));
    }
    out
}

/// Whether a text holds ASCII characters alone.
pub open spec fn ascii(s: Seq<char>) -> bool {
    forall|i: int| 0 <= i < s.len() ==> (#[trigger] s[i] as u32) < 0x80
}

/// Whether a literal gives back `value` as it stands: it holds ASCII characters alone, and no `${`.
pub open spec fn plain(value: Seq<char>) -> bool {
    &&& ascii(value)
    &&& forall|i: int|
        0 <= i && i + 1 < value.len() && #[trigger] value[i] == '$' ==> value[i + 1] != '{'
}

proof fn lemma_literal_of_guarded(value: Seq<char>, rest: Seq<char>)
    requires
        plain(value),
    ensures
        literal(guarded(value) + seq!['"'] + rest) == (Literal::Closed {
            value,
            len: guarded(value).len() + 1,
        }),
    decreases value.len(),
{
    let text = guarded(value) + seq!['"'] + rest;
    if value.len() == 0 {
        assert(text =~= seq!['"'] + rest);
        assert(value =~= Seq::empty());
    } else {
        let tail = value.skip(1);
        let c = value[0];
        assert(c as u32 <= 0x7F);
        assert(plain(tail)) by {
            assert forall|i: int| 0 <= i < tail.len() implies (#[trigger] tail[i] as u32)
                < 0x80 by {
                assert(tail[i] == value[i + 1]);
            }
            assert forall|i: int|
                0 <= i && i + 1 < tail.len() && #[trigger] tail[i] == '$' implies tail[i + 1]
                != '{' by {
                assert(tail[i] == value[i + 1]);
                assert(tail[i + 1] == value[i + 2]);
            }
        }
        lemma_literal_of_guarded(tail, rest);
        let after = guarded(tail) + seq!['"'] + rest;
        assert(text =~= guard(c) + after);
        assert(seq![c] + tail =~= value);
        if c == '\\' || c == '"' {
            assert(text.skip(2) =~= after);
            assert(text[0] == '\\' && text[1] == c);
        } else {
            assert(text.skip(1) =~= after);
            assert(text[0] == c);
            if c == '$' {
                if tail.len() > 0 {
                    assert(tail[0] == value[1]);
                    assert(text[1] == guard(tail[0])[0]) by {
                        assert(guarded(tail) == guard(tail[0]) + guarded(tail.skip(1)));
                        assert(after[0] == guarded(tail)[0]);
                        assert(text[1] == after[0]);
                    }
                } else {
                    assert(text[1] == '"');
                }
            }
        }
    }
}

/// Reading a literal gives back the value that it was written from, for every value of ASCII
/// characters without `${`.
pub proof fn law_literal_round_trip(value: Seq<char>)
    requires
        plain(value),
    ensures
        quoted(value)[0] == '"',
        literal(quoted(value).skip(1)) == (Literal::Closed {
            value,
            len: (quoted(value).len() - 1) as nat,
        }),
{
    lemma_literal_of_guarded(value, Seq::empty());
    assert(quoted(value).skip(1) =~= guarded(value) + seq!['"'] + Seq::<char>::empty());
}

/// What stands in place of the value of an assignment: its new value in quotes, or what stood there.
pub open spec fn written(s: Seq<char>, assigned: Assigned, url: Option<Seq<char>>) -> Seq<char> {
    match url {
        Some(url) => quoted(url),
        None => s.subrange(assigned.start, assigned.end),
    }
}

/// What `s` becomes from `at` on where each of the assignments from the `k`-th on that has a new
/// value is given it.
pub open spec fn spliced(
    s: Seq<char>,
    found: Seq<Assigned>,
    urls: Seq<Option<Seq<char>>>,
    at: int,
    k: int,
) -> Seq<char>
    decreases found.len() - k,
{
    if k < 0 || k >= found.len() {
        s.skip(at)
    } else {
        s.subrange(at, found[k].start) + written(s, found[k], urls[k]) + spliced(
            s,
            found,
            urls,
            found[k].end,
            k + 1,
        )
    }
}

// ---------------------------------------------------------------------------
// What a rewritten text says
//
// A text is read from left to right, and what is read at a place depends on the characters up to
// the value that is assigned next. So a text whose values were replaced is read like the one that
// it was made from.

/// Whether `t` holds from `lo + d` on what `s` holds from `lo` to `hi`.
spec fn agrees(s: Seq<char>, t: Seq<char>, d: int, lo: int, hi: int) -> bool {
    &&& 0 <= lo <= hi <= s.len()
    &&& 0 <= lo + d
    &&& hi + d <= t.len()
    &&& forall|k: int| lo <= k < hi ==> #[trigger] s[k] == t[k + d]
}

proof fn lemma_comment_local(a: Seq<char>, b: Seq<char>)
    requires
        comment_rest(a) is Some,
        comment_rest(a)->0 <= b.len(),
        forall|k: int| 0 <= k < comment_rest(a)->0 ==> #[trigger] a[k] == b[k],
    ensures
        comment_rest(b) == comment_rest(a),
    decreases a.len(),
{
    lemma_comment_rest(a);
    assert(a[0] == b[0] && a[1] == b[1]);
    if !(a[0] == '*' && a[1] == '/') {
        let n = comment_rest(a)->0;
        assert forall|k: int| 0 <= k < n - 1 implies #[trigger] a.skip(1)[k] == b.skip(1)[k] by {
            assert(a[k + 1] == b[k + 1]);
        }
        lemma_comment_local(a.skip(1), b.skip(1));
    }
}

proof fn lemma_noise_local(a: Seq<char>, b: Seq<char>, m: int)
    requires
        m <= a.len(),
        m <= b.len(),
        forall|k: int| 0 <= k < m ==> #[trigger] a[k] == b[k],
        noise(a) is Some,
        noise(a)->0 < m,
        a[noise(a)->0 as int] == '/' ==> noise(a)->0 + 1 < m,
    ensures
        noise(b) == noise(a),
    decreases a.len(),
{
    let n = noise(a)->0 as int;
    assert(a[0] == b[0]);
    if is_blank_char(a[0]) {
        assert forall|k: int| 0 <= k < m - 1 implies #[trigger] a.skip(1)[k] == b.skip(1)[k] by {
            assert(a[k + 1] == b[k + 1]);
        }
        lemma_noise_local(a.skip(1), b.skip(1), m - 1);
    } else if a[0] == '#' {
        let p = not_char('\n');
        let r = run(a.skip(1), p) as int;
        crate::text::lemma_run(a.skip(1), p);
        assert forall|k: int| 0 <= k < r implies p(#[trigger] b.skip(1)[k]) by {
            assert(p(a.skip(1)[k]));
            assert(a[k + 1] == b[k + 1]);
        }
        assert(!p(b.skip(1)[r])) by {
            assert(!p(a.skip(1)[r]));
            assert(a[r + 1] == b[r + 1]);
        }
        crate::text::lemma_run_is(b.skip(1), p, r as nat);
        let x = a.skip(1).skip(r);
        let y = b.skip(1).skip(r);
        assert forall|k: int| 0 <= k < m - 1 - r implies #[trigger] x[k] == y[k] by {
            assert(a[k + 1 + r] == b[k + 1 + r]);
        }
        lemma_noise_local(x, y, m - 1 - r);
    } else if a[0] == '/' && a.len() > 1 && a[1] == '*' {
        let c = comment_rest(a.skip(2))->0 as int;
        lemma_comment_rest(a.skip(2));
        assert(a[1] == b[1]);
        assert forall|k: int| 0 <= k < c implies #[trigger] a.skip(2)[k] == b.skip(2)[k] by {
            assert(a[k + 2] == b[k + 2]);
        }
        lemma_comment_local(a.skip(2), b.skip(2));
        let x = a.skip(2).skip(c);
        let y = b.skip(2).skip(c);
        assert forall|k: int| 0 <= k < m - 2 - c implies #[trigger] x[k] == y[k] by {
            assert(a[k + 2 + c] == b[k + 2 + c]);
        }
        lemma_noise_local(x, y, m - 2 - c);
    } else if a[0] == '/' {
        assert(a[1] == b[1]);
    }
}

proof fn lemma_gap_local(s: Seq<char>, t: Seq<char>, d: int, at: int, hi: int)
    requires
        agrees(s, t, d, at, hi),
        gap(s, at) is Some,
        gap(s, at)->0 < hi,
        s[gap(s, at)->0] == '/' ==> gap(s, at)->0 + 1 < hi,
    ensures
        gap(t, at + d) == Some(gap(s, at)->0 + d),
{
    let a = s.skip(at);
    let b = t.skip(at + d);
    lemma_noise(a);
    assert forall|k: int| 0 <= k < hi - at implies #[trigger] a[k] == b[k] by {
        assert(s[k + at] == t[k + at + d]);
    }
    lemma_noise_local(a, b, hi - at);
}

proof fn lemma_identifier_local(s: Seq<char>, t: Seq<char>, d: int, at: int, hi: int)
    requires
        agrees(s, t, d, at, hi),
        identifier_end(s, at) < hi,
    ensures
        identifier_end(t, at + d) == identifier_end(s, at) + d,
{
    lemma_identifier_end(s, at);
    let end = identifier_end(s, at);
    let b = t.skip(at + d);
    let p = in_identifier();
    assert forall|k: int| 0 <= k < end - at implies p(#[trigger] b[k]) by {
        assert(s[k + at] == t[k + at + d]);
    }
    assert(s[end] == t[end + d]);
    crate::text::lemma_run_is(b, p, (end - at) as nat);
}

proof fn lemma_keyword_local(s: Seq<char>, t: Seq<char>, d: int, at: int, hi: int, w: Seq<char>)
    requires
        agrees(s, t, d, at, hi),
        at + w.len() < hi,
    ensures
        keyword(t, at + d, w) == keyword(s, at, w),
{
    let end = at + w.len();
    assert(s.subrange(at, end) =~= t.subrange(at + d, end + d)) by {
        assert forall|k: int| 0 <= k < w.len() implies s.subrange(at, end)[k] == t.subrange(
            at + d,
            end + d,
        )[k] by {
            assert(s[k + at] == t[k + at + d]);
        }
    }
    assert(s[end] == t[end + d]);
}

proof fn lemma_literal_local(a: Seq<char>, b: Seq<char>)
    requires
        literal(a) is Closed,
        literal(a)->len <= b.len(),
        forall|k: int| 0 <= k < literal(a)->len ==> #[trigger] a[k] == b[k],
    ensures
        literal(b) == literal(a),
    decreases a.len(),
{
    lemma_literal(a);
    let n = literal(a)->len;
    assert(a[0] == b[0]);
    if a[0] == '"' {
    } else if a[0] == '\\' {
        lemma_literal(a.skip(2));
        assert(a[1] == b[1]);
        assert forall|k: int| 0 <= k < n - 2 implies #[trigger] a.skip(2)[k] == b.skip(2)[k] by {
            assert(a[k + 2] == b[k + 2]);
        }
        lemma_literal_local(a.skip(2), b.skip(2));
    } else {
        lemma_literal(a.skip(1));
        assert(a[1] == b[1]);
        assert forall|k: int| 0 <= k < n - 1 implies #[trigger] a.skip(1)[k] == b.skip(1)[k] by {
            assert(a[k + 1] == b[k + 1]);
        }
        lemma_literal_local(a.skip(1), b.skip(1));
    }
}

/// The first assignment that is found from `i` on starts after the noise at `i`.
proof fn lemma_scan_start(s: Seq<char>, i: nat)
    requires
        scan(s, i) is Done,
        scan(s, i)->Done_0.len() > 0,
    ensures
        i < s.len(),
        gap(s, i as int) is Some,
        gap(s, i as int)->0 + 13 <= scan(s, i)->Done_0[0].start < s.len(),
        s[scan(s, i)->Done_0[0].start] == '"',
    decreases s.len() - i,
{
    lemma_gap(s, i as int);
    let here = gap(s, i as int)->0;
    lemma_step(s, here);
    match step(s, here) {
        Step::Other => {
            lemma_scan_start(s, (here + 1) as nat);
            lemma_gap(s, here + 1);
        },
        Step::Found { assigned, next } => {
            lemma_quote(s, here);
        },
        Step::Flawed { .. } => {},
    }
}

proof fn lemma_quote(s: Seq<char>, at: int)
    requires
        step(s, at) is Found,
    ensures
        char_at(s, step(s, at)->assigned.start, '"'),
{
    reveal(step);
    reveal(step_at_name);
}

proof fn lemma_noise_end(a: Seq<char>)
    requires
        noise(a) is Some,
    ensures
        noise(a.skip(noise(a)->0 as int)) == Some(0nat),
    decreases a.len(),
{
    let n = noise(a)->0 as int;
    lemma_noise(a);
    if a.len() > 0 {
        if is_blank_char(a[0]) {
            lemma_noise_end(a.skip(1));
            assert(a.skip(1).skip(n - 1) =~= a.skip(n));
        } else if a[0] == '#' {
            let r = run(a.skip(1), not_char('\n')) as int;
            crate::text::lemma_run(a.skip(1), not_char('\n'));
            lemma_noise_end(a.skip(1).skip(r));
            lemma_noise(a.skip(1).skip(r));
            assert(a.skip(1).skip(r).skip(n - 1 - r) =~= a.skip(n));
        } else if a[0] == '/' && a.len() > 1 && a[1] == '*' {
            lemma_comment_rest(a.skip(2));
            let c = comment_rest(a.skip(2))->0 as int;
            lemma_noise_end(a.skip(2).skip(c));
            lemma_noise(a.skip(2).skip(c));
            assert(a.skip(2).skip(c).skip(n - 2 - c) =~= a.skip(n));
        } else {
            assert(a.skip(0) =~= a);
        }
    } else {
        assert(a.skip(0) =~= a);
    }
}

proof fn lemma_scan_gap(s: Seq<char>, i: nat)
    requires
        i <= s.len(),
        gap(s, i as int) is Some,
    ensures
        scan(s, i) == scan(s, gap(s, i as int)->0 as nat),
{
    lemma_gap(s, i as int);
    let here = gap(s, i as int)->0;
    lemma_noise_end(s.skip(i as int));
    assert(s.skip(i as int).skip(here - i) =~= s.skip(here));
}

/// Nothing is found at a character that starts neither noise nor an assignment.
proof fn lemma_scan_past(s: Seq<char>, i: int)
    requires
        0 <= i < s.len(),
        s[i] != 'i',
        is_identifier_char(s[i]) || s[i] == '.',
    ensures
        scan(s, i as nat) == scan(s, (i + 1) as nat),
{
    reveal(step);
    assert(s.skip(i)[0] == s[i]);
    assert(noise(s.skip(i)) == Some(0nat));
    if keyword(s, i, inputs_word()) {
        assert(s.subrange(i, i + 6)[0] == s[i]);
    }
}

proof fn lemma_scan_keyword(s: Seq<char>, i: int)
    requires
        0 <= i,
        keyword(s, i, inputs_word()),
    ensures
        scan(s, (i + 1) as nat) == scan(s, (i + 6) as nat),
{
    let w = s.subrange(i, i + 6);
    assert(w[1] == s[i + 1] && w[2] == s[i + 2] && w[3] == s[i + 3] && w[4] == s[i + 4] && w[5]
        == s[i + 5]);
    lemma_scan_past(s, i + 1);
    lemma_scan_past(s, i + 2);
    lemma_scan_past(s, i + 3);
    lemma_scan_past(s, i + 4);
    lemma_scan_past(s, i + 5);
}

proof fn lemma_step_keyword(s: Seq<char>, at: int)
    requires
        !(step(s, at) is Other),
    ensures
        keyword(s, at, inputs_word()),
{
    reveal(step);
}

/// A word that ends no later than the name that it stands in ends where the name does.
proof fn lemma_keyword_in_identifier(s: Seq<char>, at: int, end: int)
    requires
        0 <= at < end <= s.len(),
        forall|k: int| at <= k < end ==> is_identifier_char(#[trigger] s[k]),
        end < s.len() ==> !is_identifier_char(s[end]),
        keyword(s, at, inputs_word()),
    ensures
        at + 6 == end,
{
    let w = s.subrange(at, at + 6);
    if at + 6 < end {
        assert(is_identifier_char(s[at + 6]));
    }
    if at + 6 > end {
        assert(w[end - at] == s[end]);
        assert(w == inputs_word());
    }
}

/// A name is passed over, unless an assignment is found at the word that ends it.
proof fn lemma_scan_identifier(s: Seq<char>, i: int, end: int)
    requires
        0 <= i <= end <= s.len(),
        forall|k: int| i <= k < end ==> is_identifier_char(#[trigger] s[k]),
        end < s.len() ==> !is_identifier_char(s[end]),
        scan(s, i as nat) is Done,
    ensures
        scan(s, i as nat) == scan(s, end as nat) || (i <= end - 6 && step(s, end - 6) is Found
            && scan(s, i as nat) == scan(s, (end - 6) as nat)),
    decreases end - i,
{
    if i < end {
        assert(s.skip(i)[0] == s[i]);
        assert(gap(s, i) == Some(i));
        if step(s, i) is Other {
            lemma_scan_identifier(s, i + 1, end);
        } else {
            lemma_step_keyword(s, i);
            lemma_keyword_in_identifier(s, i, end);
        }
    }
}

/// Where nothing is found at a place, nothing is found there in a text that agrees up to the value
/// that is assigned next.
proof fn lemma_other_local(s: Seq<char>, t: Seq<char>, d: int, at: int, hi: int)
    requires
        step(s, at) is Other,
        at < s.len(),
        scan(s, (at + 1) as nat) is Done,
        scan(s, (at + 1) as nat)->Done_0.len() > 0,
        hi == scan(s, (at + 1) as nat)->Done_0[0].start + 1,
        agrees(s, t, d, at, hi),
    ensures
        step(t, at + d) is Other,
{
    lemma_scan_start(s, (at + 1) as nat);
    lemma_gap(s, at + 1);
    lemma_keyword_local(s, t, d, at, hi, inputs_word());
    if keyword(s, at, inputs_word()) {
        lemma_scan_keyword(s, at);
        lemma_scan_start(s, (at + 6) as nat);
        lemma_gap(s, at + 6);
        let dot = gap(s, at + 6)->0;
        lemma_gap_local(s, t, d, at + 6, hi);
        assert(s[dot] == t[dot + d]);
        if char_at(s, dot, '.') {
            lemma_scan_gap(s, (at + 6) as nat);
            lemma_scan_past(s, dot);
            lemma_other_after_dot(s, t, d, at, dot, hi);
        } else {
            reveal(step);
        }
    } else {
        reveal(step);
    }
}

proof fn lemma_other_after_dot(s: Seq<char>, t: Seq<char>, d: int, at: int, dot: int, hi: int)
    requires
        step(s, at) is Other,
        0 <= at < dot < s.len(),
        keyword(s, at, inputs_word()),
        keyword(t, at + d, inputs_word()),
        gap(s, at + 6) == Some(dot),
        gap(t, at + 6 + d) == Some(dot + d),
        char_at(s, dot, '.'),
        char_at(t, dot + d, '.'),
        scan(s, (dot + 1) as nat) is Done,
        scan(s, (dot + 1) as nat)->Done_0.len() > 0,
        hi == scan(s, (dot + 1) as nat)->Done_0[0].start + 1,
        agrees(s, t, d, at, hi),
    ensures
        step(t, at + d) is Other,
{
    lemma_scan_start(s, (dot + 1) as nat);
    lemma_gap(s, dot + 1);
    let name_at = gap(s, dot + 1)->0;
    lemma_gap_local(s, t, d, dot + 1, hi);
    lemma_scan_gap(s, (dot + 1) as nat);
    assert(step(s, at) == step_at_name(s, name_at)) by {
        reveal(step);
    }
    assert(step(t, at + d) == step_at_name(t, name_at + d)) by {
        reveal(step);
        assert(dot + d + 1 == dot + 1 + d);
        assert(at + d + 6 == at + 6 + d);
    }
    lemma_other_at_name(s, t, d, name_at, hi);
}

proof fn lemma_other_at_name(s: Seq<char>, t: Seq<char>, d: int, at: int, hi: int)
    requires
        step_at_name(s, at) is Other,
        0 <= at < s.len(),
        scan(s, at as nat) is Done,
        scan(s, at as nat)->Done_0.len() > 0,
        hi == scan(s, at as nat)->Done_0[0].start + 1,
        agrees(s, t, d, at, hi),
    ensures
        step_at_name(t, at + d) is Other,
{
    reveal(step_at_name);
    lemma_identifier_end(s, at);
    let end = identifier_end(s, at);
    lemma_scan_identifier(s, at, end);
    lemma_gap(s, end);
    if scan(s, at as nat) == scan(s, end as nat) {
        lemma_name_passed(s, end, hi);
    } else {
        lemma_name_ends_with_word(s, end, hi);
    }
    lemma_other_name_local(s, t, d, at, hi);
}

/// What is looked at after a name that was passed over stands before the next value.
proof fn lemma_name_passed(s: Seq<char>, end: int, hi: int)
    requires
        0 <= end <= s.len(),
        gap(s, end) is Some,
        scan(s, end as nat) is Done,
        scan(s, end as nat)->Done_0.len() > 0,
        hi == scan(s, end as nat)->Done_0[0].start + 1,
    ensures
        end < hi,
        gap(s, end)->0 + 1 < hi,
        char_at(s, gap(s, end)->0, '.') ==> gap(s, gap(s, end)->0 + 1) is Some && gap(
            s,
            gap(s, end)->0 + 1,
        )->0 + 3 < hi,
{
    let dot = gap(s, end)->0;
    lemma_gap(s, end);
    lemma_scan_start(s, end as nat);
    if char_at(s, dot, '.') {
        lemma_scan_gap(s, end as nat);
        lemma_scan_past(s, dot);
        lemma_scan_start(s, (dot + 1) as nat);
    }
}

/// The same where an assignment is found at the word that ends the name.
proof fn lemma_name_ends_with_word(s: Seq<char>, end: int, hi: int)
    requires
        6 <= end <= s.len(),
        gap(s, end) is Some,
        step(s, end - 6) is Found,
        scan(s, (end - 6) as nat) is Done,
        hi == scan(s, (end - 6) as nat)->Done_0[0].start + 1,
    ensures
        end < hi,
        gap(s, end)->0 + 1 < hi,
        char_at(s, gap(s, end)->0, '.') ==> gap(s, gap(s, end)->0 + 1) is Some && gap(
            s,
            gap(s, end)->0 + 1,
        )->0 + 3 < hi,
{
    let p = end - 6;
    let dot = gap(s, end)->0;
    lemma_found_name(s, p);
    lemma_step(s, p);
    assert(hi == step(s, p)->assigned.start + 1) by {
        let w = s.subrange(p, p + 6);
        assert(w[0] == s[p]);
        assert(s.skip(p)[0] == s[p]);
        assert(gap(s, p) == Some(p));
    }
    lemma_gap(s, end);
    lemma_gap(s, dot + 1);
    lemma_step_at_name(s, gap(s, dot + 1)->0);
}

proof fn lemma_other_name_local(s: Seq<char>, t: Seq<char>, d: int, at: int, hi: int)
    requires
        step_at_name(s, at) is Other,
        0 <= at < s.len(),
        agrees(s, t, d, at, hi),
        ({
            let end = identifier_end(s, at);
            &&& end < hi
            &&& gap(s, end) is Some
            &&& gap(s, end)->0 + 1 < hi
            &&& char_at(s, gap(s, end)->0, '.') ==> gap(s, gap(s, end)->0 + 1) is Some && gap(
                s,
                gap(s, end)->0 + 1,
            )->0 + 3 < hi
        }),
    ensures
        step_at_name(t, at + d) is Other,
{
    reveal(step_at_name);
    let end = identifier_end(s, at);
    let dot = gap(s, end)->0;
    lemma_identifier_end(s, at);
    lemma_identifier_local(s, t, d, at, hi);
    lemma_gap(s, end);
    lemma_gap_local(s, t, d, end, hi);
    assert(s[dot] == t[dot + d]);
    if char_at(s, dot, '.') {
        let url = gap(s, dot + 1)->0;
        lemma_gap(s, dot + 1);
        lemma_gap_local(s, t, d, dot + 1, hi);
        lemma_other_at_url(
            s,
            t,
            d,
            s.subrange(at, end),
            t.subrange(at + d, end + d),
            url,
            hi,
        );
        assert(dot + d + 1 == dot + 1 + d);
    }
}

/// The parts of an assignment that is found.
proof fn lemma_found_name(s: Seq<char>, at: int)
    requires
        step(s, at) is Found,
    ensures
        keyword(s, at, inputs_word()),
        gap(s, at + 6) is Some,
        char_at(s, gap(s, at + 6)->0, '.'),
        gap(s, gap(s, at + 6)->0 + 1) is Some,
        step(s, at) == step_at_name(s, gap(s, gap(s, at + 6)->0 + 1)->0),
{
    reveal(step);
}

proof fn lemma_other_at_url(
    s: Seq<char>,
    t: Seq<char>,
    d: int,
    name: Seq<char>,
    other_name: Seq<char>,
    at: int,
    hi: int,
)
    requires
        step_at_url(s, name, at) is Other,
        at + 3 < hi,
        agrees(s, t, d, at, hi),
    ensures
        step_at_url(t, other_name, at + d) is Other,
{
    lemma_keyword_local(s, t, d, at, hi, url_word());
}

/// An assignment is found in a text that agrees up to the value with the value that stands there.
proof fn lemma_found_local(s: Seq<char>, t: Seq<char>, d: int, at: int)
    requires
        step(s, at) is Found,
        agrees(s, t, d, at, step(s, at)->assigned.start + 1),
    ensures
        step(s, at) == step_at_value(s, step(s, at)->assigned.name, step(s, at)->assigned.start),
        step(t, at + d) == step_at_value(
            t,
            step(s, at)->assigned.name,
            step(s, at)->assigned.start + d,
        ),
{
    let start = step(s, at)->assigned.start;
    let hi = start + 1;
    lemma_step(s, at);
    lemma_found_name(s, at);
    let dot = gap(s, at + 6)->0;
    let name_at = gap(s, dot + 1)->0;
    lemma_gap(s, at + 6);
    lemma_gap(s, dot + 1);
    lemma_step_at_name(s, name_at);
    lemma_keyword_local(s, t, d, at, hi, inputs_word());
    lemma_gap_local(s, t, d, at + 6, hi);
    assert(s[dot] == t[dot + d]);
    lemma_gap_local(s, t, d, dot + 1, hi);
    assert(step(t, at + d) == step_at_name(t, name_at + d)) by {
        reveal(step);
        assert(dot + d + 1 == dot + 1 + d);
        assert(at + d + 6 == at + 6 + d);
    }
    lemma_found_name_local(s, t, d, name_at);
}

proof fn lemma_found_name_local(s: Seq<char>, t: Seq<char>, d: int, at: int)
    requires
        0 <= at,
        step_at_name(s, at) is Found,
        agrees(s, t, d, at, step_at_name(s, at)->assigned.start + 1),
    ensures
        step_at_name(s, at) == step_at_value(
            s,
            step_at_name(s, at)->assigned.name,
            step_at_name(s, at)->assigned.start,
        ),
        step_at_name(t, at + d) == step_at_value(
            t,
            step_at_name(s, at)->assigned.name,
            step_at_name(s, at)->assigned.start + d,
        ),
{
    reveal(step_at_name);
    let hi = step_at_name(s, at)->assigned.start + 1;
    let end = identifier_end(s, at);
    let dot = gap(s, end)->0;
    let url = gap(s, dot + 1)->0;
    let name = s.subrange(at, end);
    lemma_identifier_end(s, at);
    lemma_gap(s, end);
    lemma_gap(s, dot + 1);
    lemma_step_at_url(s, name, url);
    lemma_identifier_local(s, t, d, at, hi);
    lemma_gap_local(s, t, d, end, hi);
    assert(s[dot] == t[dot + d]);
    lemma_gap_local(s, t, d, dot + 1, hi);
    assert(dot + d + 1 == dot + 1 + d);
    assert(t.subrange(at + d, end + d) =~= name) by {
        assert forall|k: int| 0 <= k < end - at implies t.subrange(at + d, end + d)[k]
            == name[k] by {
            assert(s[k + at] == t[k + at + d]);
        }
    }
    lemma_found_url_local(s, t, d, name, url);
}

proof fn lemma_found_url_local(s: Seq<char>, t: Seq<char>, d: int, name: Seq<char>, at: int)
    requires
        0 <= at,
        step_at_url(s, name, at) is Found,
        agrees(s, t, d, at, step_at_url(s, name, at)->assigned.start + 1),
    ensures
        step_at_url(s, name, at)->assigned.name == name,
        step_at_url(s, name, at) == step_at_value(
            s,
            name,
            step_at_url(s, name, at)->assigned.start,
        ),
        step_at_url(t, name, at + d) == step_at_value(
            t,
            name,
            step_at_url(s, name, at)->assigned.start + d,
        ),
{
    let start = step_at_url(s, name, at)->assigned.start;
    let hi = start + 1;
    let equals = gap(s, at + 3)->0;
    lemma_gap(s, at + 3);
    lemma_gap(s, equals + 1);
    lemma_step_at_value(s, name, gap(s, equals + 1)->0);
    lemma_keyword_local(s, t, d, at, hi, url_word());
    lemma_gap_local(s, t, d, at + 3, hi);
    assert(s[equals] == t[equals + d]);
    assert(s[start] == '"');
    lemma_gap_local(s, t, d, equals + 1, hi);
    assert(equals + d + 1 == equals + 1 + d);
    assert(at + d + 3 == at + 3 + d);
}

/// Where nothing follows, a text is read like another that ends alike.
proof fn lemma_scan_suffix(s: Seq<char>, t: Seq<char>, i: nat, j: nat)
    requires
        i <= s.len(),
        j <= t.len(),
        s.skip(i as int) == t.skip(j as int),
        scan(s, i) == Scan::Done(Seq::empty()),
    ensures
        scan(t, j) == Scan::Done(Seq::empty()),
    decreases s.len() - i,
{
    assert(s.skip(i as int).len() == s.len() - i);
    assert(t.skip(j as int).len() == t.len() - j);
    if i < s.len() {
        lemma_gap(s, i as int);
        let here = gap(s, i as int)->0;
        let d = j - i;
        if here < s.len() {
            assert forall|x: int| i <= x <= s.len() implies #[trigger] s.skip(x) == t.skip(
                x + d,
            ) by {
                assert(s.skip(x) =~= s.skip(i as int).skip(x - i));
                assert(t.skip(x + d) =~= t.skip(j as int).skip(x - i));
            }
            lemma_step_suffix(s, t, d, here);
            assert(step(s, here) is Other) by {
                if step(s, here) is Found {
                    let rest = scan(s, step(s, here)->next as nat);
                    assert(preceded(seq![step(s, here)->assigned], rest) == scan(s, i));
                    assert(scan(s, i)->Done_0.len() > 0);
                }
            }
            lemma_scan_suffix(s, t, (here + 1) as nat, (here + 1 + d) as nat);
        }
    }
}

proof fn lemma_step_suffix(s: Seq<char>, t: Seq<char>, d: int, at: int)
    requires
        0 <= at <= s.len(),
        0 <= at + d,
        s.len() + d == t.len(),
        forall|x: int| at <= x <= s.len() ==> #[trigger] s.skip(x) == t.skip(x + d),
        step(s, at) is Other,
    ensures
        step(t, at + d) is Other,
{
    assert forall|k: int| at <= k < s.len() implies #[trigger] s[k] == t[k + d] by {
        assert(s.skip(k)[0] == s[k]);
        assert(t.skip(k + d)[0] == t[k + d]);
    }
    reveal(step);
    assert(keyword(s, at, inputs_word()) == keyword(t, at + d, inputs_word())) by {
        if at + 6 <= s.len() {
            assert(s.subrange(at, at + 6) =~= t.subrange(at + d, at + d + 6));
        }
    }
    if keyword(s, at, inputs_word()) {
        assert(s.skip(at + 6) == t.skip(at + 6 + d));
        lemma_gap(s, at + 6);
        if gap(s, at + 6) is Some {
            let dot = gap(s, at + 6)->0;
            if char_at(s, dot, '.') {
                assert(s.skip(dot + 1) == t.skip(dot + 1 + d));
                lemma_gap(s, dot + 1);
                let name_at = gap(s, dot + 1)->0;
                lemma_name_suffix(s, t, d, name_at);
            }
        }
    }
}

#[verifier::rlimit(50)]
#[verifier::spinoff_prover]
proof fn lemma_name_suffix(s: Seq<char>, t: Seq<char>, d: int, at: int)
    requires
        0 <= at <= s.len(),
        0 <= at + d,
        s.len() + d == t.len(),
        forall|x: int| at <= x <= s.len() ==> #[trigger] s.skip(x) == t.skip(x + d),
        forall|k: int| at <= k < s.len() ==> #[trigger] s[k] == t[k + d],
        step_at_name(s, at) is Other,
    ensures
        step_at_name(t, at + d) is Other,
{
    reveal(step_at_name);
    assert(s.skip(at) == t.skip(at + d));
    let end = identifier_end(s, at);
    lemma_identifier_end(s, at);
    assert(s.skip(end) == t.skip(end + d));
    lemma_gap(s, end);
    let dot = gap(s, end)->0;
    if char_at(s, dot, '.') {
        assert(s.skip(dot + 1) == t.skip(dot + 1 + d));
        lemma_gap(s, dot + 1);
        let url = gap(s, dot + 1)->0;
        assert(keyword(s, url, url_word()) == keyword(t, url + d, url_word())) by {
            if url + 3 <= s.len() {
                assert(s.subrange(url, url + 3) =~= t.subrange(url + d, url + d + 3));
            }
        }
    }
}

/// What a spliced text starts with: what the text that it was made from holds up to the quote of
/// the next value, or all of it where no value follows.
proof fn lemma_spliced_agrees(
    s: Seq<char>,
    found: Seq<Assigned>,
    urls: Seq<Option<Seq<char>>>,
    at: int,
    k: int,
    t: Seq<char>,
    j: int,
)
    requires
        0 <= at <= s.len(),
        0 <= k <= found.len(),
        0 <= j <= t.len(),
        t.skip(j) == spliced(s, found, urls, at, k),
        k < found.len() ==> at <= found[k].start < found[k].end <= s.len() && s[found[k].start]
            == '"',
    ensures
        agrees(
            s,
            t,
            j - at,
            at,
            if k < found.len() {
                found[k].start + 1
            } else {
                s.len() as int
            },
        ),
{
    let d = j - at;
    let text = t.skip(j);
    if k < found.len() {
        let start = found[k].start;
        let head = s.subrange(at, start);
        let value = written(s, found[k], urls[k]);
        assert(value[0] == '"');
        assert(text == head + value + spliced(s, found, urls, found[k].end, k + 1));
        assert forall|x: int| at <= x < start + 1 implies #[trigger] s[x] == t[x + d] by {
            assert(text[x - at] == t[x + d]);
            if x < start {
                assert(text[x - at] == head[x - at]);
            } else {
                assert(text[x - at] == value[0]);
            }
        }
        assert(text.len() == t.len() - j);
    } else {
        assert(text == s.skip(at));
        assert(text.len() == t.len() - j);
        assert forall|x: int| at <= x < s.len() implies #[trigger] s[x] == t[x + d] by {
            assert(text[x - at] == t[x + d]);
            assert(s.skip(at)[x - at] == s[x]);
        }
    }
}

/// A spliced text without its first characters.
proof fn lemma_spliced_skip(
    s: Seq<char>,
    found: Seq<Assigned>,
    urls: Seq<Option<Seq<char>>>,
    at: int,
    to: int,
    k: int,
)
    requires
        0 <= at <= to <= s.len(),
        0 <= k <= found.len(),
        k < found.len() ==> to <= found[k].start < found[k].end <= s.len(),
    ensures
        spliced(s, found, urls, at, k).skip(to - at) == spliced(s, found, urls, to, k),
{
    if k < found.len() {
        let start = found[k].start;
        let value = written(s, found[k], urls[k]);
        let rest = spliced(s, found, urls, found[k].end, k + 1);
        assert((s.subrange(at, start) + value + rest).skip(to - at) =~= s.subrange(to, start)
            + value + rest);
    } else {
        assert(s.skip(at).skip(to - at) =~= s.skip(to));
    }
}

/// The value that an assignment has in a spliced text.
pub open spec fn new_value(assigned: Assigned, url: Option<Seq<char>>) -> Seq<char> {
    match url {
        Some(url) => url,
        None => assigned.value,
    }
}

/// Whether `again` is `found` with the new values.
pub open spec fn revalued(
    found: Seq<Assigned>,
    urls: Seq<Option<Seq<char>>>,
    again: Seq<Assigned>,
) -> bool {
    &&& again.len() == found.len()
    &&& forall|m: int|
        0 <= m < found.len() ==> (#[trigger] again[m]).name == found[m].name && again[m].value
            == new_value(found[m], urls[m])
}

proof fn lemma_spliced_scan(
    s: Seq<char>,
    i: nat,
    found: Seq<Assigned>,
    urls: Seq<Option<Seq<char>>>,
    k: int,
    t: Seq<char>,
    j: nat,
)
    requires
        i <= s.len(),
        j <= t.len(),
        0 <= k <= found.len(),
        urls.len() == found.len(),
        scan(s, i) == Scan::Done(found.skip(k)),
        forall|m: int| k <= m < urls.len() && (#[trigger] urls[m]) is Some ==> plain(urls[m]->0),
        t.skip(j as int) == spliced(s, found, urls, i as int, k),
    ensures
        scan(t, j) is Done,
        revalued(found.skip(k), urls.skip(k), scan(t, j)->Done_0),
    decreases s.len() - i,
{
    if k == found.len() {
        assert(found.skip(k) =~= Seq::empty());
        lemma_scan_suffix(s, t, i, j);
    } else {
        let first = found[k];
        let hi = first.start + 1;
        let d = j - i;
        assert(found.skip(k)[0] == first);
        lemma_scan_start(s, i);
        lemma_gap(s, i as int);
        let here = gap(s, i as int)->0;
        lemma_step(s, here);
        assert(first.start < first.end <= s.len()) by {
            lemma_scan_first(s, i);
        }
        lemma_spliced_agrees(s, found, urls, i as int, k, t, j as int);
        lemma_gap_local(s, t, d, i as int, hi);
        assert(s[here] == t[here + d]);
        lemma_spliced_skip(s, found, urls, i as int, here, k);
        assert(t.skip(here + d) =~= t.skip(j as int).skip(here - i));
        match step(s, here) {
            Step::Other => {
                lemma_other_local(s, t, d, here, hi);
                lemma_spliced_skip(s, found, urls, i as int, here + 1, k);
                assert(t.skip(here + 1 + d) =~= t.skip(j as int).skip(here + 1 - i));
                lemma_spliced_scan(
                    s,
                    (here + 1) as nat,
                    found,
                    urls,
                    k,
                    t,
                    (here + 1 + d) as nat,
                );
                assert(scan(t, j) == scan(t, (here + 1 + d) as nat));
            },
            Step::Flawed { .. } => {},
            Step::Found { assigned, next } => {
                lemma_found_is_first(s, i, found, k);
                lemma_spliced_found(s, found, urls, k, t, here, next, d);
                let shift = step(t, here + d)->next - next;
                let new_first = step(t, here + d)->assigned;
                lemma_spliced_scan(
                    s,
                    next as nat,
                    found,
                    urls,
                    k + 1,
                    t,
                    (next + shift) as nat,
                );
                let again = scan(t, (next + shift) as nat)->Done_0;
                assert(scan(t, j) == Scan::Done(seq![new_first] + again));
                lemma_revalued(found, urls, k, new_first, again);
            },
        }
    }
}

/// The first assignment that a scan finds, and the rest.
proof fn lemma_found_is_first(s: Seq<char>, i: nat, found: Seq<Assigned>, k: int)
    requires
        i < s.len(),
        0 <= k < found.len(),
        scan(s, i) == Scan::Done(found.skip(k)),
        gap(s, i as int) is Some,
        gap(s, i as int)->0 < s.len(),
        step(s, gap(s, i as int)->0) is Found,
    ensures
        step(s, gap(s, i as int)->0)->assigned == found[k],
        scan(s, step(s, gap(s, i as int)->0)->next as nat) == Scan::Done(found.skip(k + 1)),
{
    let here = gap(s, i as int)->0;
    let assigned = step(s, here)->assigned;
    let rest = scan(s, step(s, here)->next as nat);
    assert(preceded(seq![assigned], rest) == scan(s, i));
    assert((seq![assigned] + rest->Done_0)[0] == assigned);
    assert(found.skip(k)[0] == found[k]);
    assert((seq![assigned] + rest->Done_0).skip(1) =~= rest->Done_0);
    assert(found.skip(k).skip(1) =~= found.skip(k + 1));
}

/// An assignment is found in a spliced text where it is found in the text that it was made from,
/// and what follows it is spliced.
proof fn lemma_spliced_found(
    s: Seq<char>,
    found: Seq<Assigned>,
    urls: Seq<Option<Seq<char>>>,
    k: int,
    t: Seq<char>,
    here: int,
    next: int,
    d: int,
)
    requires
        0 <= k < found.len(),
        urls.len() == found.len(),
        urls[k] is Some ==> plain(urls[k]->0),
        0 <= here < s.len(),
        0 <= here + d <= t.len(),
        step(s, here) == (Step::Found { assigned: found[k], next }),
        scan(s, next as nat) == Scan::Done(found.skip(k + 1)),
        t.skip(here + d) == spliced(s, found, urls, here, k),
    ensures
        step(t, here + d) is Found,
        ({
            let again = step(t, here + d);
            &&& again->assigned.name == found[k].name
            &&& again->assigned.value == new_value(found[k], urls[k])
            &&& 0 <= again->next <= t.len()
            &&& again->next > here + d
            &&& t.skip(again->next) == spliced(s, found, urls, next, k + 1)
        }),
{
    let first = found[k];
    let start = first.start;
    let value = written(s, first, urls[k]);
    let after = spliced(s, found, urls, first.end, k + 1);
    let new_end = start + d + value.len();
    lemma_step(s, here);
    lemma_quote(s, here);
    lemma_spliced_agrees(s, found, urls, here, k, t, here + d);
    lemma_spliced_skip(s, found, urls, here, start, k);
    assert(t.skip(start + d) =~= t.skip(here + d).skip(start - here));
    assert(s.subrange(start, start) =~= Seq::empty());
    assert(t.skip(start + d) =~= value + after);
    assert(t.skip(start + d).len() == t.len() - start - d);
    assert(t.subrange(start + d, new_end) =~= value) by {
        assert(t.subrange(start + d, new_end) =~= t.skip(start + d).take(value.len() as int));
    }
    assert(t.skip(new_end) =~= after) by {
        assert(t.skip(new_end) =~= t.skip(start + d).skip(value.len() as int));
    }
    lemma_found_local(s, t, d, here);
    lemma_value_read(s, t, d, first, urls[k], next);
    lemma_spliced_tail(s, found, urls, k, t, next, new_end);
}

/// What follows the value of an assignment in a spliced text.
proof fn lemma_spliced_tail(
    s: Seq<char>,
    found: Seq<Assigned>,
    urls: Seq<Option<Seq<char>>>,
    k: int,
    t: Seq<char>,
    next: int,
    new_end: int,
)
    requires
        0 <= k < found.len(),
        0 <= found[k].end < next <= s.len(),
        0 <= new_end <= t.len(),
        gap(s, found[k].end) == Some(next - 1),
        s[next - 1] == ';',
        scan(s, next as nat) == Scan::Done(found.skip(k + 1)),
        t.skip(new_end) == spliced(s, found, urls, found[k].end, k + 1),
    ensures
        ({
            let shift = new_end - found[k].end;
            &&& gap(t, new_end) == Some(next - 1 + shift)
            &&& char_at(t, next - 1 + shift, ';')
            &&& next + shift <= t.len()
            &&& t.skip(next + shift) == spliced(s, found, urls, next, k + 1)
        }),
{
    let end = found[k].end;
    let shift = new_end - end;
    if k + 1 < found.len() {
        assert(found.skip(k + 1)[0] == found[k + 1]);
        lemma_scan_start(s, next as nat);
        lemma_scan_first(s, next as nat);
        lemma_gap(s, next);
    }
    lemma_spliced_agrees(s, found, urls, end, k + 1, t, new_end);
    let hi = if k + 1 < found.len() {
        found[k + 1].start + 1
    } else {
        s.len() as int
    };
    lemma_gap_local(s, t, shift, end, hi);
    assert(s[next - 1] == t[next - 1 + shift]);
    lemma_spliced_skip(s, found, urls, end, next, k + 1);
    assert(t.skip(next + shift) =~= t.skip(new_end).skip(next - end));
}

proof fn lemma_revalued(
    found: Seq<Assigned>,
    urls: Seq<Option<Seq<char>>>,
    k: int,
    first: Assigned,
    rest: Seq<Assigned>,
)
    requires
        0 <= k < found.len(),
        urls.len() == found.len(),
        first.name == found[k].name,
        first.value == new_value(found[k], urls[k]),
        revalued(found.skip(k + 1), urls.skip(k + 1), rest),
    ensures
        revalued(found.skip(k), urls.skip(k), seq![first] + rest),
{
    let all = seq![first] + rest;
    assert forall|m: int| 0 <= m < found.len() - k implies (#[trigger] all[m]).name == found.skip(
        k,
    )[m].name && all[m].value == new_value(found.skip(k)[m], urls.skip(k)[m]) by {
        if m > 0 {
            assert(found.skip(k)[m] == found.skip(k + 1)[m - 1]);
            assert(urls.skip(k)[m] == urls.skip(k + 1)[m - 1]);
            assert(all[m] == rest[m - 1]);
        }
    }
}

/// The span of the first assignment that is found.
proof fn lemma_scan_first(s: Seq<char>, i: nat)
    requires
        scan(s, i) is Done,
        scan(s, i)->Done_0.len() > 0,
    ensures
        scan(s, i)->Done_0[0].start < scan(s, i)->Done_0[0].end <= s.len(),
    decreases s.len() - i,
{
    lemma_gap(s, i as int);
    let here = gap(s, i as int)->0;
    lemma_step(s, here);
    if step(s, here) is Other {
        lemma_scan_first(s, (here + 1) as nat);
    }
}

/// The literal that stands in place of the value `first` is read as its new value.
proof fn lemma_value_read(
    s: Seq<char>,
    t: Seq<char>,
    d: int,
    first: Assigned,
    url: Option<Seq<char>>,
    next: int,
)
    requires
        step_at_value(s, first.name, first.start) == (Step::Found { assigned: first, next }),
        0 <= first.start < first.end <= s.len(),
        0 <= first.start + d < t.len(),
        url is Some ==> plain(url->0),
        ({
            let value = written(s, first, url);
            &&& value.len() <= t.len() - first.start - d
            &&& t.subrange(first.start + d, first.start + d + value.len()) == value
        }),
    ensures
        ({
            let value = written(s, first, url);
            &&& char_at(t, first.start + d, '"')
            &&& literal(t.skip(first.start + d + 1)) == (Literal::Closed {
                value: new_value(first, url),
                len: (value.len() - 1) as nat,
            })
        }),
{
    let at = first.start + d;
    let b = t.skip(at + 1);
    match url {
        Some(u) => {
            let n = quoted(u).len() as int;
            let rest = t.skip(at + n);
            assert(t.subrange(at, at + n)[0] == '"');
            assert(b =~= guarded(u) + seq!['"'] + rest) by {
                assert forall|x: int| 0 <= x < n - 1 implies b[x] == (guarded(u) + seq!['"']
                    + rest)[x] by {
                    assert(b[x] == t.subrange(at, at + n)[x + 1]);
                    assert(quoted(u)[x + 1] == (guarded(u) + seq!['"'])[x]);
                }
            }
            lemma_literal_of_guarded(u, rest);
        },
        None => {
            let a = s.skip(first.start + 1);
            let n = first.end - first.start;
            let old = s.subrange(first.start, first.end);
            assert(t.subrange(at, at + n)[0] == old[0]);
            assert forall|x: int| 0 <= x < n - 1 implies #[trigger] a[x] == b[x] by {
                assert(b[x] == t.subrange(at, at + n)[x + 1]);
                assert(old[x + 1] == a[x]);
            }
            lemma_literal_local(a, b);
        },
    }
}

/// A text in which values were replaced is read as the text that it was made from, with the new
/// values: the same inputs are found, in the same order, each with its new value or the value that
/// it had.
pub proof fn law_replaced_values_are_read_back(
    s: Seq<char>,
    found: Seq<Assigned>,
    urls: Seq<Option<Seq<char>>>,
)
    requires
        scan(s, 0) == Scan::Done(found),
        urls.len() == found.len(),
        forall|m: int| 0 <= m < urls.len() && (#[trigger] urls[m]) is Some ==> plain(urls[m]->0),
    ensures
        scan(spliced(s, found, urls, 0, 0), 0) is Done,
        revalued(found, urls, scan(spliced(s, found, urls, 0, 0), 0)->Done_0),
{
    let t = spliced(s, found, urls, 0, 0);
    assert(t.skip(0) =~= t);
    assert(found.skip(0) =~= found);
    assert(urls.skip(0) =~= urls);
    lemma_spliced_scan(s, 0, found, urls, 0, t, 0);
}

// ---------------------------------------------------------------------------
// Spans

/// Whether the places of assignments lie in a text of `len` characters, each after the one before.
pub open spec fn spans_fit(found: Seq<Assigned>, len: int) -> bool {
    &&& forall|i: int|
        0 <= i < found.len() ==> 0 <= (#[trigger] found[i]).start < found[i].end <= len
    &&& forall|i: int, j: int|
        0 <= i < j < found.len() ==> (#[trigger] found[i]).end <= (#[trigger] found[j]).start
}

/// The places of the assignments that are found lie in the text, each after the one before.
pub proof fn law_spans_fit(s: Seq<char>, at: nat)
    requires
        scan(s, at) is Done,
    ensures
        spans_fit(scan(s, at)->Done_0, s.len() as int),
        forall|i: int|
            0 <= i < scan(s, at)->Done_0.len() ==> at <= (#[trigger] scan(
                s,
                at,
            )->Done_0[i]).start,
    decreases s.len() - at,
{
    if at < s.len() {
        lemma_gap(s, at as int);
        let here = gap(s, at as int)->0;
        lemma_step(s, here);
        if here < s.len() {
            match step(s, here) {
                Step::Other => {
                    law_spans_fit(s, (here + 1) as nat);
                },
                Step::Found { assigned, next } => {
                    let rest = scan(s, next as nat);
                    assert(preceded(seq![assigned], rest) == scan(s, at));
                    law_spans_fit(s, next as nat);
                    let all = seq![assigned] + rest->Done_0;
                    assert forall|i: int| 0 <= i < all.len() implies 0 <= (
                    #[trigger] all[i]).start < all[i].end <= s.len() && at <= all[i].start by {
                        if i > 0 {
                            assert(all[i] == rest->Done_0[i - 1]);
                        }
                    }
                    assert forall|i: int, j: int| 0 <= i < j < all.len() implies (
                    #[trigger] all[i]).end <= (#[trigger] all[j]).start by {
                        assert(all[j] == rest->Done_0[j - 1]);
                        if i > 0 {
                            assert(all[i] == rest->Done_0[i - 1]);
                        }
                    }
                },
                Step::Flawed { .. } => {},
            }
        }
    }
}

// ---------------------------------------------------------------------------
// ASCII

/// A text of ASCII characters that does not hold `${` is plain.
pub proof fn lemma_plain(value: Seq<char>)
    requires
        ascii(value),
        !holds(value, "${"@),
    ensures
        plain(value),
{
    reveal_strlit("${");
    assert forall|i: int| 0 <= i && i + 1 < value.len() && #[trigger] value[i] == '$' implies value[i
        + 1] != '{' by {
        if value[i + 1] == '{' {
            assert(value.subrange(i, i + 2) =~= "${"@);
            assert(crate::text::stands_at(value, "${"@, i));
        }
    }
}

proof fn lemma_ascii_literal(s: Seq<char>)
    requires
        ascii(s),
    ensures
        literal(s) matches Literal::Closed { value, .. } ==> ascii(value),
    decreases s.len(),
{
    if s.len() > 0 && s[0] != '"' {
        assert((s[0] as u32) < 0x80);
        if s[0] == '\\' {
            if s.len() > 1 {
                assert((s[1] as u32) < 0x80);
                lemma_ascii_literal(s.skip(2));
            }
        } else if !(s[0] == '$' && s.len() > 1 && s[1] == '{') {
            lemma_ascii_literal(s.skip(1));
        }
    }
}

proof fn lemma_ascii_step(s: Seq<char>, at: int)
    requires
        ascii(s),
        0 <= at <= s.len(),
    ensures
        step(s, at) matches Step::Found { assigned, .. } ==> ascii(assigned.value),
{
    reveal(step);
    reveal(step_at_name);
    lemma_step(s, at);
    match step(s, at) {
        Step::Found { assigned, .. } => {
            lemma_ascii_literal(s.skip(assigned.start + 1));
        },
        _ => {},
    }
}

/// A text of ASCII characters assigns values of ASCII characters.
pub proof fn law_ascii_texts_assign_ascii_values(s: Seq<char>, at: nat)
    requires
        ascii(s),
        scan(s, at) is Done,
    ensures
        forall|i: int|
            0 <= i < scan(s, at)->Done_0.len() ==> ascii((#[trigger] scan(s, at)->Done_0[i]).value),
    decreases s.len() - at,
{
    if at < s.len() {
        lemma_gap(s, at as int);
        let here = gap(s, at as int)->0;
        lemma_step(s, here);
        if here < s.len() {
            lemma_ascii_step(s, here);
            match step(s, here) {
                Step::Other => {
                    law_ascii_texts_assign_ascii_values(s, (here + 1) as nat);
                },
                Step::Found { assigned, next } => {
                    let rest = scan(s, next as nat);
                    assert(preceded(seq![assigned], rest) == scan(s, at));
                    law_ascii_texts_assign_ascii_values(s, next as nat);
                    let all = seq![assigned] + rest->Done_0;
                    assert forall|i: int| 0 <= i < all.len() implies ascii(
                        (#[trigger] all[i]).value,
                    ) by {
                        if i > 0 {
                            assert(all[i] == rest->Done_0[i - 1]);
                        }
                    }
                },
                Step::Flawed { .. } => {},
            }
        }
    }
}

// ---------------------------------------------------------------------------
// What is read of a text

/// White space is passed over, and so are a comment up to the end of its line and one in `/*` and
/// `*/`. Nothing else is.
pub proof fn law_white_space_and_comments(
    c: char,
    line: Seq<char>,
    body: Seq<char>,
    rest: Seq<char>,
)
    requires
        !line.contains('\n'),
        forall|i: int|
            0 <= i < body.len() ==> !(#[trigger] body[i] == '*' && (body + seq!['*'])[i + 1]
                == '/'),
    ensures
        noise(Seq::empty()) == Some(0nat),
        c == ' ' || c == '\t' || c == '\n' || c == '\r' || c == '\x0C' ==> noise(seq![c] + rest)
            == longer(1, noise(rest)),
        noise(seq!['#'] + line + seq!['\n'] + rest) == longer((line.len() + 2) as nat, noise(rest)),
        noise(seq!['/', '*'] + body + seq!['*', '/'] + rest) == longer(
            (body.len() + 4) as nat,
            noise(rest),
        ),
        c != ' ' && c != '\t' && c != '\n' && c != '\r' && c != '\x0C' && c != '#' && c != '/'
            ==> noise(seq![c] + rest) == Some(0nat),
        rest.len() == 0 || rest[0] != '*' ==> noise(seq!['/'] + rest) == Some(0nat),
{
    assert((seq![c] + rest).skip(1) =~= rest);
    let remark = seq!['#'] + line + seq!['\n'] + rest;
    let tail = remark.skip(1);
    assert forall|i: int| 0 <= i < line.len() implies not_char('\n')(#[trigger] tail[i]) by {
        assert(tail[i] == line[i]);
        assert(line.contains(line[i]));
    }
    assert(tail[line.len() as int] == '\n');
    crate::text::lemma_run_is(tail, not_char('\n'), line.len());
    let end = tail.skip(line.len() as int);
    assert(end =~= seq!['\n'] + rest);
    assert(end.skip(1) =~= rest);
    assert(noise(end) == longer(1, noise(rest)));
    let block = seq!['/', '*'] + body + seq!['*', '/'] + rest;
    assert(block.skip(2) =~= body + seq!['*', '/'] + rest);
    lemma_comment_body(body, rest);
    assert(block.skip(2).skip((body.len() + 2) as int) =~= rest);
    if rest.len() > 0 {
        assert((seq!['/'] + rest)[1] == rest[0]);
    }
}

proof fn lemma_comment_body(body: Seq<char>, rest: Seq<char>)
    requires
        forall|i: int|
            0 <= i < body.len() ==> !(#[trigger] body[i] == '*' && (body + seq!['*'])[i + 1]
                == '/'),
    ensures
        comment_rest(body + seq!['*', '/'] + rest) == Some((body.len() + 2) as nat),
    decreases body.len(),
{
    let text = body + seq!['*', '/'] + rest;
    if body.len() > 0 {
        let tail = body.skip(1);
        assert forall|i: int| 0 <= i < tail.len() implies !(#[trigger] tail[i] == '*' && (tail
            + seq!['*'])[i + 1] == '/') by {
            assert(tail[i] == body[i + 1]);
            assert((tail + seq!['*'])[i + 1] == (body + seq!['*'])[i + 2]);
        }
        lemma_comment_body(tail, rest);
        assert(text.skip(1) =~= tail + seq!['*', '/'] + rest);
        assert(text[0] == body[0]);
        assert(text[1] == (body + seq!['*'])[1]);
    }
}

/// A backslash and a letter stand for a line end or a tab, and a backslash before another
/// character for that character. Every other character stands for itself, a `$` before a brace
/// starts an interpolation, and a text that ends first leaves the literal open.
pub proof fn law_literals_are_read(c: char, s: Seq<char>)
    requires
        (c as u32) < 0x80,
    ensures
        literal(Seq::empty()) is Open,
        literal(seq!['\\']) is Open,
        literal(seq!['"'] + s) == (Literal::Closed { value: Seq::empty(), len: 1 }),
        literal(seq!['$', '{'] + s) is Interpolated,
        literal(s) is Closed ==> {
            let value = literal(s)->value;
            let len = literal(s)->len;
            &&& literal(seq!['\\', 'n'] + s) == (Literal::Closed {
                value: seq!['\n'] + value,
                len: len + 2,
            })
            &&& literal(seq!['\\', 'r'] + s) == (Literal::Closed {
                value: seq!['\r'] + value,
                len: len + 2,
            })
            &&& literal(seq!['\\', 't'] + s) == (Literal::Closed {
                value: seq!['\t'] + value,
                len: len + 2,
            })
            &&& c != 'n' && c != 'r' && c != 't' ==> literal(seq!['\\', c] + s) == (
            Literal::Closed { value: seq![c] + value, len: len + 2 })
            &&& c != '\\' && c != '"' && c != '$' ==> literal(seq![c] + s) == (Literal::Closed {
                value: seq![c] + value,
                len: len + 1,
            })
        },
        !(literal(s) is Closed) ==> {
            &&& literal(seq!['\\', c] + s) == literal(s)
            &&& c != '\\' && c != '"' && c != '$' ==> literal(seq![c] + s) == literal(s)
        },
{
    assert((seq!['\\', 'n'] + s).skip(2) =~= s);
    assert((seq!['\\', 'r'] + s).skip(2) =~= s);
    assert((seq!['\\', 't'] + s).skip(2) =~= s);
    assert((seq!['\\', c] + s).skip(2) =~= s);
    assert((seq![c] + s).skip(1) =~= s);
}

/// Blanks and tabs and line ends.
pub open spec fn spaces(s: Seq<char>) -> bool {
    forall|i: int|
        0 <= i < s.len() ==> #[trigger] s[i] == ' ' || s[i] == '\t' || s[i] == '\n' || s[i] == '\r'
}

/// A name of a direct input.
pub open spec fn is_name(name: Seq<char>) -> bool {
    &&& name.len() > 0
    &&& forall|i: int|
        0 <= i < name.len() ==> 'a' <= #[trigger] name[i] <= 'z' || 'A' <= name[i] <= 'Z' || '0'
            <= name[i] <= '9' || name[i] == '_' || name[i] == '-'
}

proof fn lemma_gap_is(s: Seq<char>, at: int, n: int)
    requires
        0 <= at,
        0 <= n,
        at + n < s.len(),
        forall|i: int|
            at <= i < at + n ==> #[trigger] s[i] == ' ' || s[i] == '\t' || s[i] == '\n' || s[i]
                == '\r',
        !is_blank_char(s[at + n]),
        s[at + n] != '#',
        s[at + n] != '/',
    ensures
        gap(s, at) == Some(at + n),
    decreases n,
{
    if n > 0 {
        assert(s[at] == s.skip(at)[0]);
        lemma_gap_is(s, at + 1, n - 1);
        assert(s.skip(at).skip(1) =~= s.skip(at + 1));
    } else {
        assert(s[at] == s.skip(at)[0]);
    }
}

/// The part of an assignment before its value.
pub open spec fn assigning(name: Seq<char>, before: Seq<char>, after: Seq<char>) -> Seq<char> {
    "inputs."@ + name + ".url"@ + before + "="@ + after
}

proof fn lemma_assigning(name: Seq<char>, before: Seq<char>, after: Seq<char>, rest: Seq<char>)
    requires
        is_name(name),
        spaces(before),
        spaces(after),
        rest.len() > 0,
        !is_blank_char(rest[0]),
        rest[0] != '#',
        rest[0] != '/',
    ensures
        ({
            let text = assigning(name, before, after) + rest;
            &&& gap(text, 0) == Some(0int)
            &&& step(text, 0) == step_at_value(
                text,
                name,
                assigning(name, before, after).len() as int,
            )
        }),
{
    reveal(step);
    reveal(step_at_name);
    reveal_strlit("inputs.");
    reveal_strlit(".url");
    reveal_strlit("=");
    let text = assigning(name, before, after) + rest;
    let p = 7 + name.len() as int;
    let e = p + 4 + before.len();
    let q = e + 1 + after.len();
    lemma_gap_is(text, 0, 0);
    assert(text.subrange(0, 6) =~= inputs_word());
    assert(text[6] == '.');
    assert(keyword(text, 0, inputs_word()));
    lemma_gap_is(text, 6, 0);
    assert(text[7] == name[0]);
    lemma_gap_is(text, 7, 0);
    let tail = text.skip(7);
    assert forall|i: int| 0 <= i < name.len() implies in_identifier()(#[trigger] tail[i]) by {
        assert(tail[i] == name[i]);
    }
    assert(text[p] == '.');
    assert(tail[name.len() as int] == '.');
    crate::text::lemma_run_is(tail, in_identifier(), name.len());
    assert(identifier_end(text, 7) == p);
    assert(text.subrange(7, p) =~= name);
    lemma_gap_is(text, p, 0);
    assert(text[p + 1] == 'u');
    lemma_gap_is(text, p + 1, 0);
    assert(text.subrange(p + 1, p + 4) =~= url_word());
    assert(text[e] == '=');
    assert forall|i: int| p + 4 <= i < e implies #[trigger] text[i] == ' ' || text[i] == '\t'
        || text[i] == '\n' || text[i] == '\r' by {
        assert(text[i] == before[i - p - 4]);
    }
    assert(!is_identifier_char(text[p + 4])) by {
        if before.len() > 0 {
            assert(text[p + 4] == before[0]);
        }
    }
    assert(keyword(text, p + 1, url_word()));
    lemma_gap_is(text, p + 4, before.len() as int);
    assert forall|i: int| e + 1 <= i < q implies #[trigger] text[i] == ' ' || text[i] == '\t'
        || text[i] == '\n' || text[i] == '\r' by {
        assert(text[i] == after[i - e - 1]);
    }
    assert(text[q] == rest[0]);
    lemma_gap_is(text, e + 1, after.len() as int);
}

/// An assignment of a literal to a direct input is found with its name, its value and where its
/// literal stands, and reading goes on behind it.
pub proof fn law_assignments_are_found(
    name: Seq<char>,
    before: Seq<char>,
    after: Seq<char>,
    value: Seq<char>,
    last: Seq<char>,
    rest: Seq<char>,
)
    requires
        is_name(name),
        spaces(before),
        spaces(after),
        spaces(last),
        plain(value),
    ensures
        ({
            let head = assigning(name, before, after);
            let text = head + quoted(value) + last + seq![';'] + rest;
            scan(text, 0) == preceded(
                seq![
                    Assigned {
                        name,
                        value,
                        start: head.len() as int,
                        end: (head.len() + quoted(value).len()) as int,
                    },
                ],
                scan(text, (text.len() - rest.len()) as nat),
            )
        }),
{
    let head = assigning(name, before, after);
    let text = head + quoted(value) + last + seq![';'] + rest;
    let behind = quoted(value) + last + seq![';'] + rest;
    assert(text =~= head + behind);
    assert(behind[0] == '"');
    lemma_assigning(name, before, after, behind);
    let q = head.len() as int;
    let tail = last + seq![';'] + rest;
    lemma_literal_of_guarded(value, tail);
    assert(text.skip(q + 1) =~= guarded(value) + seq!['"'] + tail);
    let end = q + quoted(value).len();
    assert forall|i: int| end <= i < end + last.len() implies #[trigger] text[i] == ' ' || text[i]
        == '\t' || text[i] == '\n' || text[i] == '\r' by {
        assert(text[i] == last[i - end]);
    }
    assert(text[end + last.len()] == ';');
    lemma_gap_is(text, end, last.len() as int);
    assert(text[q] == '"');
}

/// An assignment of anything but a literal, of a literal with an interpolation, and one that no
/// `;` ends stop the reading, and the input is named.
pub proof fn law_other_assignments_are_refused(
    name: Seq<char>,
    before: Seq<char>,
    after: Seq<char>,
    value: Seq<char>,
    last: Seq<char>,
    rest: Seq<char>,
)
    requires
        is_name(name),
        spaces(before),
        spaces(after),
        spaces(last),
        plain(value),
        rest.len() > 0,
        !is_blank_char(rest[0]),
        rest[0] != '#',
        rest[0] != '/',
    ensures
        ({
            let head = assigning(name, before, after);
            let bare = scan(head + rest, 0);
            let unfinished = scan(head + quoted(value) + last + rest, 0);
            let interpolated = scan(head + seq!['"', '$', '{'] + rest, 0);
            &&& rest[0] != '"' ==> bare is Flawed && bare->Flawed_name == name
            &&& rest[0] != ';' ==> unfinished is Flawed && unfinished->Flawed_name == name
            &&& interpolated is Flawed && interpolated->Flawed_name == name
        }),
{
    let head = assigning(name, before, after);
    let q = head.len() as int;
    lemma_assigning(name, before, after, rest);
    assert((head + rest)[q] == rest[0]);
    let text = head + quoted(value) + last + rest;
    let behind = quoted(value) + last + rest;
    assert(text =~= head + behind);
    assert(behind[0] == '"');
    lemma_assigning(name, before, after, behind);
    lemma_literal_of_guarded(value, last + rest);
    assert(text.skip(q + 1) =~= guarded(value) + seq!['"'] + (last + rest));
    let end = q + quoted(value).len();
    assert forall|i: int| end <= i < end + last.len() implies #[trigger] text[i] == ' ' || text[i]
        == '\t' || text[i] == '\n' || text[i] == '\r' by {
        assert(text[i] == last[i - end]);
    }
    assert(text[end + last.len()] == rest[0]);
    lemma_gap_is(text, end, last.len() as int);
    assert(text[q] == '"');
    let opened = seq!['"', '$', '{'] + rest;
    let mixed = head + seq!['"', '$', '{'] + rest;
    assert(mixed =~= head + opened);
    assert(opened[0] == '"');
    lemma_assigning(name, before, after, opened);
    assert(mixed[q] == '"');
    assert(mixed.skip(q + 1)[0] == '$' && mixed.skip(q + 1)[1] == '{');
}

} // verus!
