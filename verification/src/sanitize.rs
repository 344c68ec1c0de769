//! Names made fit for a path or a reference.

use crate::text::chars_of;
use vstd::prelude::*;

verus! {

pub open spec fn is_alphanumeric(c: char) -> bool {
    ||| 'a' <= c <= 'z'
    ||| 'A' <= c <= 'Z'
    ||| '0' <= c <= '9'
}

/// The characters that a path component keeps.
pub open spec fn path_safe(c: char) -> bool {
    is_alphanumeric(c) || c == '-' || c == '_' || c == '.'
}

/// The characters that a reference component keeps.
pub open spec fn ref_safe(c: char) -> bool {
    path_safe(c) || c == '/'
}

pub fn alphanumeric(c: char) -> (r: bool)
    ensures
        r == is_alphanumeric(c),
{
    ('a' <= c && c <= 'z') || ('A' <= c && c <= 'Z') || ('0' <= c && c <= '9')
}

/// `s` with an underscore for each character that `keep` does not hold of; an empty `s` becomes
/// `unknown`.
pub open spec fn cleaned(s: Seq<char>, keep: spec_fn(char) -> bool) -> Seq<char> {
    if s.len() == 0 {
        "unknown"@
    } else {
        Seq::new(
            s.len(),
            |i: int|
                if keep(s[i]) {
                    s[i]
                } else {
                    '_'
                },
        )
    }
}

/// A name as a path component.
pub open spec fn path_component(s: Seq<char>) -> Seq<char> {
    cleaned(s, |c: char| path_safe(c))
}

/// A name as part of a reference name.
pub open spec fn ref_component(s: Seq<char>) -> Seq<char> {
    cleaned(s, |c: char| ref_safe(c))
}

/// A name as a path component.
pub fn sanitize_path_component(value: &str) -> (r: String)
    ensures
        r@ == path_component(value@),
{
    let chars = chars_of(value);
    if chars.len() == 0 {
        return "unknown".to_owned();
    }
    let mut out = String::new();
    let mut i: usize = 0;
    while i < chars.len()
        invariant
            i <= chars@.len(),
            chars@ == value@,
            value@.len() > 0,
            out@ == path_component(value@).take(i as int),
        decreases chars@.len() - i,
    {
        let c = chars[i];
        let kept = if alphanumeric(c) || c == '-' || c == '_' || c == '.' {
            c
        } else {
            '_'
        };
        out.push(kept);
        i += 1;
        assert(path_component(value@).take(i as int) =~= path_component(value@).take(i - 1).push(
            kept,
        ));
    }
    assert(path_component(value@).take(i as int) =~= path_component(value@));
    out
}

/// A name as part of a reference name.
pub fn sanitize_ref_component(value: &str) -> (r: String)
    ensures
        r@ == ref_component(value@),
{
    let chars = chars_of(value);
    if chars.len() == 0 {
        return "unknown".to_owned();
    }
    let mut out = String::new();
    let mut i: usize = 0;
    while i < chars.len()
        invariant
            i <= chars@.len(),
            chars@ == value@,
            value@.len() > 0,
            out@ == ref_component(value@).take(i as int),
        decreases chars@.len() - i,
    {
        let c = chars[i];
        let kept = if alphanumeric(c) || c == '/' || c == '-' || c == '_' || c == '.' {
            c
        } else {
            '_'
        };
        out.push(kept);
        i += 1;
        assert(ref_component(value@).take(i as int) =~= ref_component(value@).take(i - 1).push(
            kept,
        ));
    }
    assert(ref_component(value@).take(i as int) =~= ref_component(value@));
    out
}

proof fn lemma_unknown_is_safe()
    ensures
        "unknown"@.len() > 0,
        forall|i: int| 0 <= i < "unknown"@.len() ==> path_safe(#[trigger] "unknown"@[i]),
{
    reveal_strlit("unknown");
}

/// A path component is never empty and holds only letters, digits and `-`, `_`, `.`: no
/// separator among them. Making it fit again changes nothing.
pub proof fn law_path_component_is_safe(s: Seq<char>)
    ensures
        path_component(s).len() > 0,
        forall|i: int| 0 <= i < path_component(s).len() ==> path_safe(#[trigger] path_component(s)[i]),
        path_component(path_component(s)) == path_component(s),
{
    lemma_unknown_is_safe();
    let once = path_component(s);
    assert(path_component(once) =~= once);
}

/// A reference component is never empty and holds only letters, digits and `/`, `-`, `_`, `.`.
/// Making it fit again changes nothing.
pub proof fn law_ref_component_is_safe(s: Seq<char>)
    ensures
        ref_component(s).len() > 0,
        forall|i: int| 0 <= i < ref_component(s).len() ==> ref_safe(#[trigger] ref_component(s)[i]),
        ref_component(ref_component(s)) == ref_component(s),
{
    lemma_unknown_is_safe();
    let once = ref_component(s);
    assert(ref_component(once) =~= once);
}

/// Making a name fit keeps what is fit: a letter, a digit, `-`, `_` and `.` stay, in a reference
/// also `/`, and everything else becomes `_`, one for one. Nothing becomes `unknown`.
pub proof fn law_fit_names_stay(s: Seq<char>)
    ensures
        s.len() > 0 ==> path_component(s).len() == s.len() && ref_component(s).len() == s.len(),
        forall|i: int|
            0 <= i < s.len() ==> #[trigger] path_component(s)[i] == (if 'a' <= s[i] <= 'z' || 'A'
                <= s[i] <= 'Z' || '0' <= s[i] <= '9' || s[i] == '-' || s[i] == '_' || s[i] == '.' {
                s[i]
            } else {
                '_'
            }),
        forall|i: int|
            0 <= i < s.len() ==> #[trigger] ref_component(s)[i] == (if 'a' <= s[i] <= 'z' || 'A'
                <= s[i] <= 'Z' || '0' <= s[i] <= '9' || s[i] == '-' || s[i] == '_' || s[i] == '.'
                || s[i] == '/' {
                s[i]
            } else {
                '_'
            }),
        s.len() == 0 ==> path_component(s) == "unknown"@ && ref_component(s) == "unknown"@,
{
}

} // verus!
