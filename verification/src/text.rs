//! Strings as sequences of characters: the operations that every other module builds on.

use vstd::prelude::*;

verus! {

/// `String::push` appends one character to the end of the string.
pub assume_specification[ String::push ](s: &mut String, ch: char)
    ensures
        final(s)@ == old(s)@.push(ch),
;

/// What a list of strings says, string by string.
pub open spec fn texts(v: Seq<String>) -> Seq<Seq<char>> {
    Seq::new(v.len(), |i: int| v[i]@)
}

/// What an optional string says.
pub open spec fn text_of(o: Option<String>) -> Option<Seq<char>> {
    match o {
        Some(s) => Some(s@),
        None => None,
    }
}

pub proof fn lemma_texts_push(v: Seq<String>, s: String)
    ensures
        texts(v.push(s)) == texts(v).push(s@),
{
    assert(texts(v.push(s)) =~= texts(v).push(s@));
}

/// The characters of a string, in order.
pub fn chars_of(s: &str) -> (r: Vec<char>)
    ensures
        r@ == s@,
{
    let mut out: Vec<char> = Vec::new();
    for c in it: s.chars()
        invariant
            it.seq() == s@,
            out@ == s@.take(it.index() as int),
    {
        out.push(c);
    }
    assert(s@.take(s@.len() as int) =~= s@);
    out
}

/// The string made of `chars[from..to]`.
pub fn string_of(chars: &Vec<char>, from: usize, to: usize) -> (r: String)
    requires
        from <= to <= chars@.len(),
    ensures
        r@ == chars@.subrange(from as int, to as int),
{
    let mut out = String::new();
    let mut i: usize = from;
    while i < to
        invariant
            from <= i <= to <= chars@.len(),
            out@ == chars@.subrange(from as int, i as int),
        decreases to - i,
    {
        out.push(chars[i]);
        i += 1;
        assert(chars@.subrange(from as int, i as int) =~= chars@.subrange(from as int, i - 1).push(
            chars@[i - 1],
        ));
    }
    out
}

/// Whether two strings hold the same characters.
pub fn same(a: &str, b: &str) -> (r: bool)
    ensures
        r == (a@ == b@),
{
    a.to_owned() == b.to_owned()
}

/// Whether `list` holds the string `s`.
pub fn list_holds(list: &Vec<String>, s: &str) -> (r: bool)
    ensures
        r == texts(list@).contains(s@),
{
    let mut i: usize = 0;
    while i < list.len()
        invariant
            i <= list@.len(),
            forall|j: int| 0 <= j < i ==> list@[j]@ != s@,
        decreases list@.len() - i,
    {
        if same(&list[i], s) {
            assert(texts(list@)[i as int] == s@);
            return true;
        }
        i += 1;
    }
    false
}

/// A copy of a list of strings.
pub fn copy_list(list: &Vec<String>) -> (r: Vec<String>)
    ensures
        r@ == list@,
{
    let mut out: Vec<String> = Vec::new();
    let mut i: usize = 0;
    while i < list.len()
        invariant
            i <= list@.len(),
            out@ == list@.take(i as int),
        decreases list@.len() - i,
    {
        out.push(list[i].clone());
        i += 1;
        assert(list@.take(i as int) =~= list@.take(i - 1).push(list@[i - 1]));
    }
    assert(list@.take(i as int) =~= list@);
    out
}

/// A copy of an optional string.
pub fn copy_option(value: &Option<String>) -> (r: Option<String>)
    ensures
        r == *value,
{
    match value {
        Some(s) => Some(s.clone()),
        None => None,
    }
}

pub fn concat2(a: &str, b: &str) -> (r: String)
    ensures
        r@ == a@ + b@,
{
    let mut out = a.to_owned();
    out.append(b);
    out
}

pub fn concat3(a: &str, b: &str, c: &str) -> (r: String)
    ensures
        r@ == a@ + b@ + c@,
{
    let mut out = a.to_owned();
    out.append(b);
    out.append(c);
    out
}

pub fn concat4(a: &str, b: &str, c: &str, d: &str) -> (r: String)
    ensures
        r@ == a@ + b@ + c@ + d@,
{
    let mut out = a.to_owned();
    out.append(b);
    out.append(c);
    out.append(d);
    out
}

pub fn concat5(a: &str, b: &str, c: &str, d: &str, e: &str) -> (r: String)
    ensures
        r@ == a@ + b@ + c@ + d@ + e@,
{
    let mut out = a.to_owned();
    out.append(b);
    out.append(c);
    out.append(d);
    out.append(e);
    out
}

// ---------------------------------------------------------------------------
// Runs of characters

/// How many characters at the start of `s` satisfy `p` before the first one that does not.
pub open spec fn run(s: Seq<char>, p: spec_fn(char) -> bool) -> nat
    decreases s.len(),
{
    if s.len() > 0 && p(s[0]) {
        1 + run(s.skip(1), p)
    } else {
        0
    }
}

pub proof fn lemma_run(s: Seq<char>, p: spec_fn(char) -> bool)
    ensures
        run(s, p) <= s.len(),
        forall|i: int| 0 <= i < run(s, p) ==> p(#[trigger] s[i]),
        run(s, p) < s.len() ==> !p(s[run(s, p) as int]),
    decreases s.len(),
{
    if s.len() > 0 && p(s[0]) {
        lemma_run(s.skip(1), p);
        assert forall|i: int| 0 <= i < run(s, p) implies p(#[trigger] s[i]) by {
            if i > 0 {
                assert(s[i] == s.skip(1)[i - 1]);
            }
        }
    }
}

pub proof fn lemma_run_is(s: Seq<char>, p: spec_fn(char) -> bool, n: nat)
    requires
        n <= s.len(),
        forall|i: int| 0 <= i < n ==> p(#[trigger] s[i]),
        n < s.len() ==> !p(s[n as int]),
    ensures
        run(s, p) == n,
{
    lemma_run(s, p);
    let m = run(s, p);
    if m < n {
        assert(p(s[m as int]));
    }
    if n < m {
        assert(p(s[n as int]));
    }
}

/// Every character but `c`.
pub open spec fn not_char(c: char) -> spec_fn(char) -> bool {
    |x: char| x != c
}

/// The index of the first `c` in `chars` at or after `from`, or the length where there is none.
pub fn index_from(chars: &Vec<char>, from: usize, c: char) -> (r: usize)
    requires
        from <= chars@.len(),
    ensures
        r == from + run(chars@.skip(from as int), not_char(c)),
        from <= r <= chars@.len(),
{
    let ghost p = not_char(c);
    let ghost tail = chars@.skip(from as int);
    let mut i: usize = from;
    while i < chars.len() && chars[i] != c
        invariant
            from <= i <= chars@.len(),
            tail == chars@.skip(from as int),
            p == not_char(c),
            forall|j: int| 0 <= j < i - from ==> p(#[trigger] tail[j]),
        decreases chars@.len() - i,
    {
        assert(tail[i - from] == chars@[i as int]);
        i += 1;
    }
    proof {
        if i < chars@.len() {
            assert(tail[i - from] == chars@[i as int]);
        }
        lemma_run_is(tail, p, (i - from) as nat);
    }
    i
}

/// The parts of `s` before and after its first `c`.
pub open spec fn halves(s: Seq<char>, c: char) -> Option<(Seq<char>, Seq<char>)> {
    let i = run(s, not_char(c)) as int;
    if i < s.len() {
        Some((s.take(i), s.skip(i + 1)))
    } else {
        None
    }
}

/// The parts of `s` before and after its first `c`, where it holds one.
pub fn split_once(s: &str, c: char) -> (r: Option<(String, String)>)
    ensures
        r is Some <==> halves(s@, c) is Some,
        r matches Some(p) ==> halves(s@, c) == Some((p.0@, p.1@)),
{
    let chars = chars_of(s);
    let i = index_from(&chars, 0, c);
    assert(chars@.skip(0) =~= s@);
    if i < chars.len() {
        assert(chars@.subrange(0, i as int) =~= s@.take(i as int));
        assert(chars@.subrange(i + 1, chars@.len() as int) =~= s@.skip(i + 1));
        Some((string_of(&chars, 0, i), string_of(&chars, i + 1, chars.len())))
    } else {
        None
    }
}

/// The pieces of `s` between its occurrences of `c`; there is always at least one.
pub open spec fn pieces(s: Seq<char>, c: char) -> Seq<Seq<char>>
    decreases s.len(),
{
    let i = run(s, not_char(c)) as int;
    if 0 <= i < s.len() {
        seq![s.take(i)] + pieces(s.skip(i + 1), c)
    } else {
        seq![s]
    }
}

/// The pieces of `s` between its occurrences of `c`.
pub fn split(s: &str, c: char) -> (r: Vec<String>)
    ensures
        texts(r@) == pieces(s@, c),
{
    let chars = chars_of(s);
    let mut out: Vec<String> = Vec::new();
    let mut start: usize = 0;
    assert(chars@.skip(0) =~= s@);
    assert(texts(out@) + pieces(s@, c) =~= pieces(s@, c));
    loop
        invariant
            start <= chars@.len(),
            chars@ == s@,
            texts(out@) + pieces(chars@.skip(start as int), c) == pieces(s@, c),
        decreases chars@.len() - start,
    {
        let i = index_from(&chars, start, c);
        let ghost tail = chars@.skip(start as int);
        let piece = string_of(&chars, start, i);
        proof {
            lemma_texts_push(out@, piece);
        }
        if i < chars.len() {
            let ghost before = texts(out@);
            out.push(piece);
            proof {
                assert(chars@.subrange(start as int, i as int) =~= tail.take(i - start));
                assert(chars@.skip(i + 1) =~= tail.skip(i - start + 1));
                assert(before.push(piece@) + pieces(chars@.skip(i + 1), c) =~= before + (seq![
                    piece@,
                ] + pieces(chars@.skip(i + 1), c)));
            }
            start = i + 1;
        } else {
            let ghost before = texts(out@);
            out.push(piece);
            proof {
                assert(chars@.subrange(start as int, i as int) =~= tail);
                assert(before.push(piece@) =~= before + seq![piece@]);
            }
            return out;
        }
    }
}

/// The characters that Unicode counts as white space.
pub open spec fn is_space(c: char) -> bool {
    let n = c as int;
    ||| 0x09 <= n <= 0x0d
    ||| n == 0x20
    ||| n == 0x85
    ||| n == 0xa0
    ||| n == 0x1680
    ||| 0x2000 <= n <= 0x200a
    ||| n == 0x2028
    ||| n == 0x2029
    ||| n == 0x202f
    ||| n == 0x205f
    ||| n == 0x3000
}

pub fn space(c: char) -> (r: bool)
    ensures
        r == is_space(c),
{
    let n: u32 = c as u32;
    (0x09 <= n && n <= 0x0d) || n == 0x20 || n == 0x85 || n == 0xa0 || n == 0x1680 || (0x2000 <= n
        && n <= 0x200a) || n == 0x2028 || n == 0x2029 || n == 0x202f || n == 0x205f || n == 0x3000
}

/// `s` without its leading white space.
pub open spec fn trim_start(s: Seq<char>) -> Seq<char>
    decreases s.len(),
{
    if s.len() > 0 && is_space(s[0]) {
        trim_start(s.skip(1))
    } else {
        s
    }
}

/// `s` without its trailing white space.
pub open spec fn trim_end(s: Seq<char>) -> Seq<char>
    decreases s.len(),
{
    if s.len() > 0 && is_space(s.last()) {
        trim_end(s.drop_last())
    } else {
        s
    }
}

/// `s` without the white space around it.
pub open spec fn trimmed(s: Seq<char>) -> Seq<char> {
    trim_end(trim_start(s))
}

/// `s` without the white space around it.
pub fn trim(s: &str) -> (r: String)
    ensures
        r@ == trimmed(s@),
{
    let chars = chars_of(s);
    let mut from: usize = 0;
    assert(chars@.skip(0) =~= s@);
    while from < chars.len() && space(chars[from])
        invariant
            from <= chars@.len(),
            trim_start(chars@.skip(from as int)) == trim_start(s@),
        decreases chars@.len() - from,
    {
        assert(chars@.skip(from as int).skip(1) =~= chars@.skip(from + 1));
        from += 1;
    }
    assert(trim_start(s@) == chars@.skip(from as int));
    let mut to: usize = chars.len();
    assert(chars@.subrange(from as int, to as int) =~= chars@.skip(from as int));
    while to > from && space(chars[to - 1])
        invariant
            from <= to <= chars@.len(),
            trim_end(chars@.subrange(from as int, to as int)) == trimmed(s@),
        decreases to - from,
    {
        assert(chars@.subrange(from as int, to as int).drop_last() =~= chars@.subrange(
            from as int,
            to - 1,
        ));
        to -= 1;
    }
    string_of(&chars, from, to)
}

/// `s` without its trailing white space.
pub fn trim_tail(s: &str) -> (r: String)
    ensures
        r@ == trim_end(s@),
{
    let chars = chars_of(s);
    let mut to: usize = chars.len();
    assert(chars@.subrange(0, to as int) =~= s@);
    while to > 0 && space(chars[to - 1])
        invariant
            to <= chars@.len(),
            trim_end(chars@.subrange(0, to as int)) == trim_end(s@),
        decreases to,
    {
        assert(chars@.subrange(0, to as int).drop_last() =~= chars@.subrange(0, to - 1));
        to -= 1;
    }
    string_of(&chars, 0, to)
}

/// Whether `s` holds nothing but white space.
pub fn is_blank(s: &str) -> (r: bool)
    ensures
        r == (trimmed(s@).len() == 0),
{
    trim(s).as_str().is_empty()
}

/// `line` without the carriage return that may end it.
pub open spec fn strip_cr(line: Seq<char>) -> Seq<char> {
    if line.len() > 0 && line.last() == '\r' {
        line.drop_last()
    } else {
        line
    }
}

/// The lines of `s`: each ends at a line feed, or at a carriage return and a line feed, and what
/// follows the last line feed is a line only where it is not empty.
pub open spec fn lines_of(s: Seq<char>) -> Seq<Seq<char>>
    decreases s.len(),
{
    let i = run(s, not_char('\n')) as int;
    if s.len() == 0 {
        Seq::empty()
    } else if 0 <= i < s.len() {
        seq![strip_cr(s.take(i))] + lines_of(s.skip(i + 1))
    } else {
        seq![s]
    }
}

/// The lines of `s`.
pub fn lines(s: &str) -> (r: Vec<String>)
    ensures
        texts(r@) == lines_of(s@),
{
    let chars = chars_of(s);
    let mut out: Vec<String> = Vec::new();
    let mut start: usize = 0;
    assert(chars@.skip(0) =~= s@);
    assert(texts(out@) + lines_of(s@) =~= lines_of(s@));
    while start < chars.len()
        invariant
            start <= chars@.len(),
            chars@ == s@,
            texts(out@) + lines_of(chars@.skip(start as int)) == lines_of(s@),
        decreases chars@.len() - start,
    {
        let i = index_from(&chars, start, '\n');
        let ghost tail = chars@.skip(start as int);
        let ghost before = texts(out@);
        if i < chars.len() {
            let end: usize = if i > start && chars[i - 1] == '\r' {
                i - 1
            } else {
                i
            };
            let line = string_of(&chars, start, end);
            proof {
                lemma_texts_push(out@, line);
                assert(tail.take(i - start) =~= chars@.subrange(start as int, i as int));
                assert(line@ =~= strip_cr(tail.take(i - start)));
                assert(chars@.skip(i + 1) =~= tail.skip(i - start + 1));
                assert(before.push(line@) + lines_of(chars@.skip(i + 1)) =~= before + (seq![line@]
                    + lines_of(chars@.skip(i + 1))));
            }
            out.push(line);
            start = i + 1;
        } else {
            let line = string_of(&chars, start, i);
            proof {
                lemma_texts_push(out@, line);
                assert(line@ =~= tail);
                assert(chars@.skip(i as int) =~= Seq::<char>::empty());
                assert(before.push(line@) + Seq::<Seq<char>>::empty() =~= before + seq![line@]);
            }
            out.push(line);
            start = i;
        }
    }
    assert(chars@.skip(start as int) =~= Seq::<char>::empty());
    assert(texts(out@) + Seq::<Seq<char>>::empty() =~= texts(out@));
    out
}

/// Every character that is not white space.
pub open spec fn not_space() -> spec_fn(char) -> bool {
    |c: char| !is_space(c)
}

/// The words of `s`: its longest runs of characters that are not white space.
pub open spec fn words_of(s: Seq<char>) -> Seq<Seq<char>>
    decreases s.len(),
{
    let i = run(s, not_space()) as int;
    if s.len() == 0 {
        Seq::empty()
    } else if is_space(s[0]) {
        words_of(s.skip(1))
    } else if 0 < i < s.len() {
        seq![s.take(i)] + words_of(s.skip(i))
    } else {
        seq![s]
    }
}

/// The words of `s`.
pub fn words(s: &str) -> (r: Vec<String>)
    ensures
        texts(r@) == words_of(s@),
{
    let chars = chars_of(s);
    let mut out: Vec<String> = Vec::new();
    let mut start: usize = 0;
    assert(chars@.skip(0) =~= s@);
    assert(texts(out@) + words_of(s@) =~= words_of(s@));
    while start < chars.len()
        invariant
            start <= chars@.len(),
            chars@ == s@,
            texts(out@) + words_of(chars@.skip(start as int)) == words_of(s@),
        decreases chars@.len() - start,
    {
        let ghost tail = chars@.skip(start as int);
        assert(tail[0] == chars@[start as int]);
        if space(chars[start]) {
            assert(tail.skip(1) =~= chars@.skip(start + 1));
            start += 1;
        } else {
            let ghost p = not_space();
            let mut i: usize = start;
            while i < chars.len() && !space(chars[i])
                invariant
                    start <= i <= chars@.len(),
                    tail == chars@.skip(start as int),
                    p == not_space(),
                    forall|j: int| 0 <= j < i - start ==> p(#[trigger] tail[j]),
                decreases chars@.len() - i,
            {
                assert(tail[i - start] == chars@[i as int]);
                i += 1;
            }
            let word = string_of(&chars, start, i);
            let ghost before = texts(out@);
            proof {
                if i < chars@.len() {
                    assert(tail[i - start] == chars@[i as int]);
                }
                lemma_run_is(tail, p, (i - start) as nat);
                if i == start {
                    assert(p(tail[0]));
                }
                lemma_texts_push(out@, word);
                assert(word@ =~= tail.take(i - start));
                assert(chars@.skip(i as int) =~= tail.skip(i - start));
                if i < chars@.len() {
                    assert(before.push(word@) + words_of(chars@.skip(i as int)) =~= before + (seq![
                        word@,
                    ] + words_of(chars@.skip(i as int))));
                } else {
                    assert(word@ =~= tail);
                    assert(chars@.skip(i as int) =~= Seq::<char>::empty());
                    assert(before.push(word@) + Seq::<Seq<char>>::empty() =~= before + seq![word@]);
                }
            }
            out.push(word);
            start = i;
        }
    }
    assert(chars@.skip(start as int) =~= Seq::<char>::empty());
    assert(texts(out@) + Seq::<Seq<char>>::empty() =~= texts(out@));
    out
}

// ---------------------------------------------------------------------------
// Prefixes, suffixes and occurrences

/// Whether `s` begins with `p`.
pub open spec fn begins(s: Seq<char>, p: Seq<char>) -> bool {
    p.len() <= s.len() && s.take(p.len() as int) == p
}

/// Whether `s` ends with `p`.
pub open spec fn ends(s: Seq<char>, p: Seq<char>) -> bool {
    p.len() <= s.len() && s.skip(s.len() - p.len()) == p
}

/// Whether `p` stands in `s` at index `i`.
pub open spec fn stands_at(s: Seq<char>, p: Seq<char>, i: int) -> bool {
    0 <= i <= s.len() - p.len() && s.subrange(i, i + p.len()) == p
}

/// Whether `p` stands somewhere in `s`.
pub open spec fn holds(s: Seq<char>, p: Seq<char>) -> bool {
    exists|i: int| stands_at(s, p, i)
}

/// Whether `p` stands in `chars` at index `at`.
pub fn stands(chars: &Vec<char>, p: &Vec<char>, at: usize) -> (r: bool)
    ensures
        r == stands_at(chars@, p@, at as int),
{
    if at > chars.len() || chars.len() - at < p.len() {
        return false;
    }
    let mut k: usize = 0;
    while k < p.len()
        invariant
            k <= p@.len(),
            at + p@.len() <= chars.len(),
            forall|j: int| 0 <= j < k ==> chars@[at + j] == p@[j],
        decreases p@.len() - k,
    {
        if chars[at + k] != p[k] {
            assert(chars@.subrange(at as int, at + p@.len())[k as int] != p@[k as int]);
            return false;
        }
        k += 1;
    }
    assert(chars@.subrange(at as int, at + p@.len()) =~= p@);
    true
}

/// Whether `s` begins with `p`.
pub fn starts_with(s: &str, p: &str) -> (r: bool)
    ensures
        r == begins(s@, p@),
{
    let chars = chars_of(s);
    let prefix = chars_of(p);
    proof {
        if p@.len() <= s@.len() {
            assert(s@.subrange(0, p@.len() as int) =~= s@.take(p@.len() as int));
        }
    }
    stands(&chars, &prefix, 0)
}

/// Whether `s` ends with `p`.
pub fn ends_with(s: &str, p: &str) -> (r: bool)
    ensures
        r == ends(s@, p@),
{
    let chars = chars_of(s);
    let suffix = chars_of(p);
    if chars.len() < suffix.len() {
        return false;
    }
    proof {
        assert(s@.subrange(s@.len() - p@.len(), s@.len() as int) =~= s@.skip(s@.len() - p@.len()));
    }
    stands(&chars, &suffix, chars.len() - suffix.len())
}

/// Whether `p` stands somewhere in `s`.
pub fn contains(s: &str, p: &str) -> (r: bool)
    ensures
        r == holds(s@, p@),
{
    let chars = chars_of(s);
    let part = chars_of(p);
    if chars.len() < part.len() {
        return false;
    }
    let last: usize = chars.len() - part.len();
    let mut i: usize = 0;
    while i <= last
        invariant
            chars@ == s@,
            part@ == p@,
            last == s@.len() - p@.len(),
            i <= last + 1,
            forall|j: int| 0 <= j < i ==> !stands_at(s@, p@, j),
        decreases last + 1 - i,
    {
        if stands(&chars, &part, i) {
            return true;
        }
        if i == last {
            assert forall|j: int| !stands_at(s@, p@, j) by {
                if 0 <= j <= last {
                }
            }
            return false;
        }
        i += 1;
    }
    false
}

/// What follows `p` in `s`, where `s` begins with `p`.
pub open spec fn after(s: Seq<char>, p: Seq<char>) -> Option<Seq<char>> {
    if begins(s, p) {
        Some(s.skip(p.len() as int))
    } else {
        None
    }
}

/// What follows `p` in `s`, where `s` begins with `p`.
pub fn strip_prefix(s: &str, p: &str) -> (r: Option<String>)
    ensures
        text_of(r) == after(s@, p@),
{
    if !starts_with(s, p) {
        return None;
    }
    let chars = chars_of(s);
    let n = chars_of(p).len();
    assert(s@.subrange(n as int, s@.len() as int) =~= s@.skip(n as int));
    Some(string_of(&chars, n, chars.len()))
}

// ---------------------------------------------------------------------------
// Character-wise changes

/// `c` in lower case where it is an ASCII letter, else `c`.
pub open spec fn lower_char(c: char) -> char {
    if 'A' <= c <= 'Z' {
        ((c as u32) + 32) as char
    } else {
        c
    }
}

/// `s` with its ASCII letters in lower case.
pub open spec fn lowered(s: Seq<char>) -> Seq<char> {
    Seq::new(s.len(), |i: int| lower_char(s[i]))
}

/// `s` with its ASCII letters in lower case.
pub fn to_lower(s: &str) -> (r: String)
    ensures
        r@ == lowered(s@),
{
    let chars = chars_of(s);
    let mut out = String::new();
    let mut i: usize = 0;
    while i < chars.len()
        invariant
            i <= chars@.len(),
            chars@ == s@,
            out@ == lowered(s@).take(i as int),
        decreases chars@.len() - i,
    {
        let c = chars[i];
        let low = if 'A' <= c && c <= 'Z' {
            ((c as u8) + 32) as char
        } else {
            c
        };
        out.push(low);
        i += 1;
        assert(lowered(s@).take(i as int) =~= lowered(s@).take(i - 1).push(lower_char(s@[i - 1])));
    }
    assert(lowered(s@).take(i as int) =~= lowered(s@));
    out
}

/// `s` with each `c` replaced by `w`.
pub open spec fn replaced(s: Seq<char>, c: char, w: Seq<char>) -> Seq<char>
    decreases s.len(),
{
    if s.len() == 0 {
        Seq::empty()
    } else if s.last() == c {
        replaced(s.drop_last(), c, w) + w
    } else {
        replaced(s.drop_last(), c, w).push(s.last())
    }
}

/// `s` with each `c` replaced by `w`.
pub fn replace(s: &str, c: char, w: &str) -> (r: String)
    ensures
        r@ == replaced(s@, c, w@),
{
    let chars = chars_of(s);
    let mut out = String::new();
    let mut i: usize = 0;
    while i < chars.len()
        invariant
            i <= chars@.len(),
            chars@ == s@,
            out@ == replaced(s@.take(i as int), c, w@),
        decreases chars@.len() - i,
    {
        if chars[i] == c {
            out.append(w);
        } else {
            out.push(chars[i]);
        }
        i += 1;
        assert(s@.take(i as int).drop_last() =~= s@.take(i - 1));
    }
    assert(s@.take(i as int) =~= s@);
    out
}

/// The parts of `parts` with `sep` between each two of them.
pub open spec fn joined(parts: Seq<Seq<char>>, sep: Seq<char>) -> Seq<char>
    decreases parts.len(),
{
    if parts.len() == 0 {
        Seq::empty()
    } else if parts.len() == 1 {
        parts[0]
    } else {
        joined(parts.drop_last(), sep) + sep + parts.last()
    }
}

/// The parts of `parts` with `sep` between each two of them.
pub fn join(parts: &Vec<String>, sep: &str) -> (r: String)
    ensures
        r@ == joined(texts(parts@), sep@),
{
    let mut out = String::new();
    let mut i: usize = 0;
    while i < parts.len()
        invariant
            i <= parts@.len(),
            out@ == joined(texts(parts@).take(i as int), sep@),
        decreases parts@.len() - i,
    {
        if i > 0 {
            out.append(sep);
        }
        out.append(&parts[i]);
        i += 1;
        proof {
            let t = texts(parts@).take(i as int);
            assert(t.drop_last() =~= texts(parts@).take(i - 1));
            assert(t.last() == parts@[i - 1]@);
            if i == 1 {
                assert(out@ =~= t[0]);
            }
        }
    }
    assert(texts(parts@).take(i as int) =~= texts(parts@));
    out
}

/// `true` or `false`.
pub open spec fn bool_text(b: bool) -> Seq<char> {
    if b {
        "true"@
    } else {
        "false"@
    }
}

/// `true` or `false`.
pub fn render_bool(b: bool) -> (r: &'static str)
    ensures
        r@ == bool_text(b),
{
    if b {
        "true"
    } else {
        "false"
    }
}

// ---------------------------------------------------------------------------
// Decimal numbers

pub open spec fn is_digit(c: char) -> bool {
    '0' <= c <= '9'
}

pub fn digit(c: char) -> (r: bool)
    ensures
        r == is_digit(c),
{
    '0' <= c && c <= '9'
}

/// The character of the decimal digit `d`.
pub open spec fn digit_char(d: nat) -> char {
    (d + 48) as char
}

/// `n` in decimal digits, without leading zeros.
pub open spec fn decimal(n: nat) -> Seq<char>
    decreases n,
{
    if n < 10 {
        seq![digit_char(n)]
    } else {
        decimal(n / 10).push(digit_char(n % 10))
    }
}

/// `n` in decimal digits.
pub fn render_u128(n: u128) -> (r: String)
    ensures
        r@ == decimal(n as nat),
    decreases n,
{
    let d = ((n % 10) as u8 + 48) as char;
    if n < 10 {
        let mut out = String::new();
        out.push(d);
        assert(out@ =~= seq![digit_char(n as nat)]);
        out
    } else {
        let mut out = render_u128(n / 10);
        out.push(d);
        out
    }
}

/// `n` in decimal digits.
pub fn render_u64(n: u64) -> (r: String)
    ensures
        r@ == decimal(n as nat),
{
    render_u128(n as u128)
}

/// `n` in decimal digits.
pub fn render_usize(n: usize) -> (r: String)
    ensures
        r@ == decimal(n as nat),
{
    render_u128(n as u128)
}

/// The number that a sequence of digits says.
pub open spec fn number(s: Seq<char>) -> nat
    decreases s.len(),
{
    if s.len() == 0 {
        0
    } else {
        number(s.drop_last()) * 10 + (s.last() as nat - 48) as nat
    }
}

/// Whether `s` holds decimal digits alone.
pub open spec fn all_digits(s: Seq<char>) -> bool {
    forall|i: int| 0 <= i < s.len() ==> is_digit(#[trigger] s[i])
}

/// A longer sequence of digits says no smaller number.
pub proof fn lemma_number_grows(s: Seq<char>, n: int)
    requires
        0 <= n <= s.len(),
    ensures
        number(s.take(n)) <= number(s),
    decreases s.len() - n,
{
    if n == s.len() {
        assert(s.take(n) =~= s);
    } else {
        lemma_number_grows(s, n + 1);
        assert(s.take(n + 1).drop_last() =~= s.take(n));
    }
}

/// Rendering a number and reading the digits back gives the number.
pub proof fn lemma_decimal_number(n: nat)
    ensures
        number(decimal(n)) == n,
        all_digits(decimal(n)),
        decimal(n).len() > 0,
    decreases n,
{
    if n < 10 {
        assert(decimal(n).drop_last() =~= Seq::<char>::empty());
        assert(number(Seq::<char>::empty()) == 0);
    } else {
        lemma_decimal_number(n / 10);
        assert(decimal(n).drop_last() =~= decimal(n / 10));
    }
}

/// The number that `chars[from..to]` says, where it is not empty and fits.
pub fn parse_digits(chars: &Vec<char>, from: usize, to: usize) -> (r: Option<u64>)
    requires
        from <= to <= chars@.len(),
        all_digits(chars@.subrange(from as int, to as int)),
    ensures
        r == number_in_u64(chars@.subrange(from as int, to as int)),
{
    let ghost s = chars@.subrange(from as int, to as int);
    if from == to {
        return None;
    }
    let mut n: u64 = 0;
    let mut i: usize = from;
    assert(s.take(0) =~= Seq::<char>::empty());
    while i < to
        invariant
            from <= i <= to <= chars@.len(),
            s == chars@.subrange(from as int, to as int),
            all_digits(s),
            s.len() > 0,
            n == number(s.take(i - from)),
        decreases to - i,
    {
        assert(s[i - from] == chars@[i as int]);
        assert(is_digit(s[i - from]));
        let d: u64 = (chars[i] as u32 - 48) as u64;
        proof {
            assert(s.take(i - from + 1).drop_last() =~= s.take(i - from));
            lemma_number_grows(s, i - from + 1);
        }
        if n > (u64::MAX - d) / 10 {
            return None;
        }
        n = n * 10 + d;
        i += 1;
    }
    assert(s.take(i - from) =~= s);
    Some(n)
}

/// The number that a sequence of digits says, where there is one and it fits in 64 bits.
pub open spec fn number_in_u64(s: Seq<char>) -> Option<u64> {
    if s.len() > 0 && number(s) <= u64::MAX {
        Some(number(s) as u64)
    } else {
        None
    }
}

// ---------------------------------------------------------------------------
// What splitting a text gives

/// A text that holds a character is split at the first one: what stands before it does not hold
/// the character, and the two parts with the character between them are the text. One that does
/// not hold it is not split.
pub proof fn law_halves(s: Seq<char>, a: Seq<char>, b: Seq<char>, c: char)
    ensures
        halves(s, c) == Some((a, b)) <==> s == a + seq![c] + b && !a.contains(c),
        halves(s, c) is None <==> !s.contains(c),
{
    let p = not_char(c);
    lemma_run(s, p);
    let i = run(s, p) as int;
    if halves(s, c) == Some((a, b)) {
        assert(s =~= a + seq![c] + b);
        if a.contains(c) {
            let j = choose|j: int| 0 <= j < a.len() && a[j] == c;
            assert(p(s[j]));
        }
    }
    if s == a + seq![c] + b && !a.contains(c) {
        let n = a.len();
        assert forall|j: int| 0 <= j < n implies p(#[trigger] s[j]) by {
            assert(s[j] == a[j]);
            assert(a.contains(a[j]));
        }
        assert(s[n as int] == c);
        lemma_run_is(s, p, n);
        assert(s.take(n as int) =~= a);
        assert(s.skip(n as int + 1) =~= b);
    }
    if s.contains(c) {
        let j = choose|j: int| 0 <= j < s.len() && s[j] == c;
        if i >= s.len() {
            assert(p(s[j]));
        }
    }
    if i < s.len() {
        assert(s[i] == c);
    }
}

/// The pieces of a text between its occurrences of a character do not hold it, and with it between
/// them they are the text.
pub proof fn law_pieces(s: Seq<char>, c: char)
    ensures
        pieces(s, c).len() > 0,
        joined(pieces(s, c), seq![c]) == s,
        forall|i: int| 0 <= i < pieces(s, c).len() ==> !(#[trigger] pieces(s, c)[i]).contains(c),
    decreases s.len(),
{
    let p = not_char(c);
    lemma_run(s, p);
    let i = run(s, p) as int;
    if i < s.len() {
        let head = s.take(i);
        let tail = s.skip(i + 1);
        law_pieces(tail, c);
        lemma_joined_first(head, pieces(tail, c), seq![c]);
        assert(s =~= head + seq![c] + tail);
        assert(!head.contains(c)) by {
            if head.contains(c) {
                let j = choose|j: int| 0 <= j < head.len() && head[j] == c;
                assert(p(s[j]));
            }
        }
        assert forall|k: int| 0 <= k < pieces(s, c).len() implies !(#[trigger] pieces(
            s,
            c,
        )[k]).contains(c) by {
            if k > 0 {
                assert(pieces(s, c)[k] == pieces(tail, c)[k - 1]);
            }
        }
    } else {
        if s.contains(c) {
            let j = choose|j: int| 0 <= j < s.len() && s[j] == c;
            assert(p(s[j]));
        }
        assert(pieces(s, c) =~= seq![s]);
        reveal_with_fuel(joined, 2);
    }
}

/// A first part stands before the others, with the separator between.
pub proof fn lemma_joined_first(first: Seq<char>, others: Seq<Seq<char>>, sep: Seq<char>)
    requires
        others.len() > 0,
    ensures
        joined(seq![first] + others, sep) == first + sep + joined(others, sep),
    decreases others.len(),
{
    let all = seq![first] + others;
    assert(all.drop_last() =~= seq![first] + others.drop_last());
    assert(all.last() == others.last());
    if others.len() == 1 {
        assert(all.drop_last() =~= seq![first]);
        reveal_with_fuel(joined, 3);
        assert(joined(all, sep) =~= first + sep + joined(others, sep));
    } else {
        lemma_joined_first(first, others.drop_last(), sep);
        assert(joined(all, sep) =~= first + sep + joined(others, sep));
    }
}

/// The words of a text are read one by one: a first word, white space, and the words of what
/// follows; white space before a text changes nothing.
pub proof fn law_words(word: Seq<char>, gap: char, rest: Seq<char>)
    requires
        word.len() > 0,
        forall|i: int| 0 <= i < word.len() ==> !is_space(#[trigger] word[i]),
        is_space(gap),
    ensures
        words_of(word) == seq![word],
        words_of(word + seq![gap] + rest) == seq![word] + words_of(rest),
        words_of(seq![gap] + rest) == words_of(rest),
        words_of(Seq::empty()) == Seq::<Seq<char>>::empty(),
{
    let p = not_space();
    let n = word.len();
    assert(p(word[0]));
    lemma_run_is(word, p, n);
    let tail = seq![gap] + rest;
    assert(tail.skip(1) =~= rest);
    assert(words_of(tail) == words_of(rest));
    let s = word + seq![gap] + rest;
    assert forall|i: int| 0 <= i < n implies p(#[trigger] s[i]) by {
        assert(s[i] == word[i]);
    }
    assert(s[n as int] == gap);
    lemma_run_is(s, p, n);
    assert(s.take(n as int) =~= word);
    assert(s.skip(n as int) =~= tail);
    assert(s[0] == word[0]);
}

/// The lines of a text are read one by one: what stands before the first line feed, without the
/// carriage return that may end it, and the lines of what follows.
pub proof fn law_lines(line: Seq<char>, rest: Seq<char>)
    requires
        !line.contains('\n'),
    ensures
        lines_of(line + seq!['\n'] + rest) == seq![strip_cr(line)] + lines_of(rest),
        line.len() > 0 ==> lines_of(line) == seq![line],
        lines_of(Seq::empty()) == Seq::<Seq<char>>::empty(),
        line.len() == 0 || line.last() != '\r' ==> strip_cr(line) == line,
        strip_cr(line.push('\r')) == line,
{
    let p = not_char('\n');
    let n = line.len();
    let s = line + seq!['\n'] + rest;
    assert forall|i: int| 0 <= i < n implies p(#[trigger] s[i]) && p(line[i]) by {
        assert(s[i] == line[i]);
        assert(line.contains(line[i]));
    }
    assert forall|i: int| 0 <= i < n implies p(#[trigger] line[i]) by {
        assert(p(s[i]));
    }
    assert(s[n as int] == '\n');
    lemma_run_is(s, p, n);
    lemma_run_is(line, p, n);
    assert(s.take(n as int) =~= line);
    assert(s.skip(n as int + 1) =~= rest);
    assert(line.push('\r').drop_last() =~= line);
}

/// Trimming takes white space away at both ends and nothing else: what is left neither begins nor
/// ends with white space, and around it stood only white space.
pub proof fn law_trimmed(s: Seq<char>)
    ensures
        trimmed(s).len() > 0 ==> !is_space(trimmed(s)[0]) && !is_space(trimmed(s).last()),
        exists|before: Seq<char>, after: Seq<char>| #[trigger]
            (before + trimmed(s) + after) == s && all_space(before) && all_space(after),
{
    let (before, left) = lemma_trim_start(s);
    let after = lemma_trim_end(left);
    assert(before + trimmed(s) + after =~= s);
}

/// Whether a text is white space alone.
pub open spec fn all_space(s: Seq<char>) -> bool {
    forall|i: int| 0 <= i < s.len() ==> is_space(#[trigger] s[i])
}

proof fn lemma_trim_start(s: Seq<char>) -> (r: (Seq<char>, Seq<char>))
    ensures
        r.1 == trim_start(s),
        r.0 + r.1 == s,
        all_space(r.0),
        r.1.len() > 0 ==> !is_space(r.1[0]),
    decreases s.len(),
{
    if s.len() > 0 && is_space(s[0]) {
        let r = lemma_trim_start(s.skip(1));
        let before = seq![s[0]] + r.0;
        assert(before + r.1 =~= s) by {
            assert(s =~= seq![s[0]] + s.skip(1));
        }
        (before, r.1)
    } else {
        assert(Seq::<char>::empty() + s =~= s);
        (Seq::empty(), s)
    }
}

proof fn lemma_trim_end(s: Seq<char>) -> (after: Seq<char>)
    requires
        s.len() > 0 ==> !is_space(s[0]),
    ensures
        trim_end(s) + after == s,
        all_space(after),
        trim_end(s).len() > 0 ==> !is_space(trim_end(s)[0]) && !is_space(trim_end(s).last()),
    decreases s.len(),
{
    if s.len() > 0 && is_space(s.last()) {
        let after = lemma_trim_end(s.drop_last());
        let all = after.push(s.last());
        assert(trim_end(s) + all =~= s) by {
            assert(s =~= s.drop_last().push(s.last()));
        }
        all
    } else {
        assert(s + Seq::<char>::empty() =~= s);
        Seq::empty()
    }
}

/// Lowering a text keeps every character but the capital letters of ASCII, which become the small
/// letters at the same places of the alphabet; a text that is lowered stays as it is.
pub proof fn law_lowered(s: Seq<char>)
    ensures
        lowered(s).len() == s.len(),
        forall|i: int|
            0 <= i < s.len() ==> #[trigger] lowered(s)[i] == (if 65 <= s[i] as int <= 90 {
                (s[i] as int + 32) as char
            } else {
                s[i]
            }),
        lowered(lowered(s)) == lowered(s),
{
    assert forall|i: int| 0 <= i < s.len() implies lower_char(#[trigger] lowered(s)[i])
        == lowered(s)[i] by {
        assert(lowered(s)[i] == lower_char(s[i]));
    }
    assert(lowered(lowered(s)) =~= lowered(s));
}

/// The two truth values are written as `true` and `false`.
pub proof fn law_truth_values(b: bool)
    ensures
        bool_text(b) == "true"@ <==> b,
        bool_text(b) == "false"@ <==> !b,
{
    reveal_strlit("true");
    reveal_strlit("false");
    assert("true"@.len() == 4 && "false"@.len() == 5);
}

} // verus!
