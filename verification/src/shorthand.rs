//! Shorthand for repositories on well-known hosts, and the Git URLs that it stands for.

use crate::config::MigrationTransport;
use crate::flake::plain;
use crate::migration::MigrationError;
use crate::text::{
    concat2, concat3, concat4, halves, join, joined, law_halves, lemma_run, not_char, pieces, run,
    same, split, split_once, stands_at, starts_with, text_of, texts,
};
use vstd::prelude::*;

verus! {

#[derive(Debug, Clone, Copy, PartialEq, Eq, Structural)]
pub enum ShorthandKind {
    Github,
    Gitlab,
    Sourcehut,
}

impl ShorthandKind {
    pub open spec fn text(self) -> Seq<char> {
        match self {
            ShorthandKind::Github => "github"@,
            ShorthandKind::Gitlab => "gitlab"@,
            ShorthandKind::Sourcehut => "sourcehut"@,
        }
    }

    /// The scheme of the shorthand.
    pub fn label(self) -> (r: &'static str)
        ensures
            r@ == self.text(),
    {
        match self {
            ShorthandKind::Github => "github",
            ShorthandKind::Gitlab => "gitlab",
            ShorthandKind::Sourcehut => "sourcehut",
        }
    }
}

#[derive(Debug, Clone, PartialEq, Eq)]
pub struct ParsedShorthandQuery {
    pub host: Option<String>,
    pub ref_name: Option<String>,
    pub rev: Option<String>,
    pub dir: Option<String>,
}

#[derive(Debug, Clone, PartialEq, Eq)]
pub struct ParsedShorthandUrl {
    pub kind: ShorthandKind,
    pub host: String,
    pub repo_path: String,
    pub ref_name: Option<String>,
    pub rev: Option<String>,
    pub dir: Option<String>,
}

/// The parameters of a query.
pub struct Query {
    pub host: Option<Seq<char>>,
    pub ref_name: Option<Seq<char>>,
    pub rev: Option<Seq<char>>,
    pub dir: Option<Seq<char>>,
}

/// What a shorthand says.
pub struct Shorthand {
    pub kind: ShorthandKind,
    pub host: Seq<char>,
    pub repo_path: Seq<char>,
    pub ref_name: Option<Seq<char>>,
    pub rev: Option<Seq<char>>,
    pub dir: Option<Seq<char>>,
}

impl View for ParsedShorthandQuery {
    type V = Query;

    open spec fn view(&self) -> Query {
        Query {
            host: text_of(self.host),
            ref_name: text_of(self.ref_name),
            rev: text_of(self.rev),
            dir: text_of(self.dir),
        }
    }
}

impl View for ParsedShorthandUrl {
    type V = Shorthand;

    open spec fn view(&self) -> Shorthand {
        Shorthand {
            kind: self.kind,
            host: self.host@,
            repo_path: self.repo_path@,
            ref_name: text_of(self.ref_name),
            rev: text_of(self.rev),
            dir: text_of(self.dir),
        }
    }
}

/// Whether `value` starts like a shorthand.
pub open spec fn is_shorthand(value: Seq<char>) -> bool {
    crate::text::begins(value, "github:"@) || crate::text::begins(value, "gitlab:"@)
        || crate::text::begins(value, "sourcehut:"@)
}

/// Whether `value` starts like a shorthand.
pub fn matches_shorthand_prefix(value: &str) -> (r: bool)
    ensures
        r == is_shorthand(value@),
{
    starts_with(value, "github:") || starts_with(value, "gitlab:") || starts_with(
        value,
        "sourcehut:",
    )
}

// ---------------------------------------------------------------------------
// Queries

pub open spec fn empty_query() -> Query {
    Query { host: None, ref_name: None, rev: None, dir: None }
}

pub open spec fn duplicate(key: Seq<char>) -> Result<Query, Seq<char>> {
    Err("duplicate query parameter "@ + key)
}

/// `query` with one more parameter, or what is wrong with it.
pub open spec fn with_pair(query: Query, pair: Seq<char>) -> Result<Query, Seq<char>> {
    if pair.len() == 0 {
        Ok(query)
    } else {
        match halves(pair, '=') {
            None => Err("query parameter "@ + pair + " is missing '='"@),
            Some((key, value)) => if key == "dir"@ {
                if query.dir is Some {
                    duplicate(key)
                } else {
                    Ok(Query { dir: Some(value), ..query })
                }
            } else if key == "ref"@ {
                if query.ref_name is Some {
                    duplicate(key)
                } else {
                    Ok(Query { ref_name: Some(value), ..query })
                }
            } else if key == "rev"@ {
                if query.rev is Some {
                    duplicate(key)
                } else {
                    Ok(Query { rev: Some(value), ..query })
                }
            } else if key == "host"@ {
                if query.host is Some {
                    duplicate(key)
                } else {
                    Ok(Query { host: Some(value), ..query })
                }
            } else {
                Err("unsupported query parameter "@ + key)
            },
        }
    }
}

/// The parameters that the first `n` pairs say, or what is wrong with the first that is.
pub open spec fn query_of(pairs: Seq<Seq<char>>, n: int) -> Result<Query, Seq<char>>
    decreases n,
{
    if n <= 0 {
        Ok(empty_query())
    } else {
        match query_of(pairs, n - 1) {
            Ok(query) => with_pair(query, pairs[n - 1]),
            Err(detail) => Err(detail),
        }
    }
}

proof fn lemma_query_fails(pairs: Seq<Seq<char>>, n: int, m: int)
    requires
        0 <= n <= m,
        query_of(pairs, n) is Err,
    ensures
        query_of(pairs, m) == query_of(pairs, n),
    decreases m - n,
{
    if n < m {
        lemma_query_fails(pairs, n, m - 1);
    }
}

/// Whether `r` is what `expected` says.
pub open spec fn read_as<T: View>(r: Result<T, String>, expected: Result<T::V, Seq<char>>) -> bool {
    match r {
        Ok(value) => expected is Ok && expected->Ok_0 == value@,
        Err(detail) => expected is Err && expected->Err_0 == detail@,
    }
}

fn add_pair(query: ParsedShorthandQuery, pair: &str) -> (r: Result<ParsedShorthandQuery, String>)
    ensures
        read_as(r, with_pair(query@, pair@)),
{
    if pair.is_empty() {
        return Ok(query);
    }
    let (key, value) = match split_once(pair, '=') {
        Some(halves) => halves,
        None => {
            return Err(concat3("query parameter ", pair, " is missing '='"));
        },
    };
    let mut query = query;
    let taken: bool;
    if same(&key, "dir") {
        taken = query.dir.is_some();
        query.dir = Some(value);
    } else if same(&key, "ref") {
        taken = query.ref_name.is_some();
        query.ref_name = Some(value);
    } else if same(&key, "rev") {
        taken = query.rev.is_some();
        query.rev = Some(value);
    } else if same(&key, "host") {
        taken = query.host.is_some();
        query.host = Some(value);
    } else {
        return Err(concat2("unsupported query parameter ", &key));
    }
    if taken {
        Err(concat2("duplicate query parameter ", &key))
    } else {
        Ok(query)
    }
}

/// The parameters that a query says.
pub fn parse_query(query: &str) -> (r: Result<ParsedShorthandQuery, String>)
    ensures
        read_as(r, query_of(pieces(query@, '&'), pieces(query@, '&').len() as int)),
{
    let pairs = split(query, '&');
    let ghost ps = pieces(query@, '&');
    let mut parsed = ParsedShorthandQuery { host: None, ref_name: None, rev: None, dir: None };
    let mut i: usize = 0;
    while i < pairs.len()
        invariant
            i <= pairs@.len(),
            texts(pairs@) == ps,
            ps == pieces(query@, '&'),
            query_of(ps, i as int) == Ok::<Query, Seq<char>>(parsed@),
        decreases pairs@.len() - i,
    {
        assert(ps[i as int] == pairs@[i as int]@);
        match add_pair(parsed, &pairs[i]) {
            Ok(next) => {
                parsed = next;
            },
            Err(detail) => {
                proof {
                    lemma_query_fails(ps, i + 1, ps.len() as int);
                }
                return Err(detail);
            },
        }
        i += 1;
    }
    Ok(parsed)
}

// ---------------------------------------------------------------------------
// Shorthand

/// The parts of a path between its slashes that are not empty.
pub open spec fn path_segments(path: Seq<char>) -> Seq<Seq<char>> {
    pieces(path, '/').filter(|part: Seq<char>| part.len() > 0)
}

fn segments(path: &str) -> (r: Vec<String>)
    ensures
        texts(r@) == path_segments(path@),
{
    let all = split(path, '/');
    let ghost ps = pieces(path@, '/');
    let ghost keep = |part: Seq<char>| part.len() > 0;
    let mut out: Vec<String> = Vec::new();
    let mut i: usize = 0;
    assert(texts(out@) =~= ps.take(0).filter(keep)) by {
        reveal(Seq::filter);
    }
    while i < all.len()
        invariant
            i <= all@.len(),
            texts(all@) == ps,
            keep == (|part: Seq<char>| part.len() > 0),
            texts(out@) == ps.take(i as int).filter(keep),
        decreases all@.len() - i,
    {
        proof {
            reveal(Seq::filter);
            assert(ps.take(i + 1).drop_last() =~= ps.take(i as int));
            assert(ps.take(i + 1).last() == all@[i as int]@);
            crate::text::lemma_texts_push(out@, all@[i as int]);
        }
        if !all[i].as_str().is_empty() {
            out.push(all[i].clone());
        }
        i += 1;
    }
    assert(ps.take(i as int) =~= ps);
    out
}

pub open spec fn or_else(value: Option<Seq<char>>, default: Seq<char>) -> Seq<char> {
    match value {
        Some(text) => text,
        None => default,
    }
}

fn or_default(value: Option<String>, default: &str) -> (r: String)
    ensures
        r@ == or_else(text_of(value), default@),
{
    match value {
        Some(text) => text,
        None => default.to_owned(),
    }
}

pub open spec fn github(parts: Seq<Seq<char>>, query: Query) -> Result<Shorthand, Seq<char>> {
    if !(parts.len() == 2 || parts.len() == 3) {
        Err("github shorthand must be owner/repo or owner/repo/ref"@)
    } else if parts.len() == 3 && query.ref_name is Some {
        Err("github shorthand path ref and query ref are ambiguous together"@)
    } else {
        Ok(
            Shorthand {
                kind: ShorthandKind::Github,
                host: or_else(query.host, "github.com"@),
                repo_path: parts[0] + "/"@ + parts[1],
                ref_name: if parts.len() == 3 {
                    Some(parts[2])
                } else {
                    query.ref_name
                },
                rev: query.rev,
                dir: query.dir,
            },
        )
    }
}

pub open spec fn gitlab(parts: Seq<Seq<char>>, query: Query) -> Result<Shorthand, Seq<char>> {
    if parts.len() < 2 {
        Err("gitlab shorthand must include at least group/project"@)
    } else {
        Ok(
            Shorthand {
                kind: ShorthandKind::Gitlab,
                host: or_else(query.host, "gitlab.com"@),
                repo_path: joined(parts, "/"@),
                ref_name: query.ref_name,
                rev: query.rev,
                dir: query.dir,
            },
        )
    }
}

pub open spec fn sourcehut(parts: Seq<Seq<char>>, query: Query) -> Result<Shorthand, Seq<char>> {
    if parts.len() != 2 || !crate::text::begins(parts[0], "~"@) {
        Err("sourcehut shorthand must be ~user/project"@)
    } else {
        Ok(
            Shorthand {
                kind: ShorthandKind::Sourcehut,
                host: or_else(query.host, "git.sr.ht"@),
                repo_path: parts[0] + "/"@ + parts[1],
                ref_name: query.ref_name,
                rev: query.rev,
                dir: query.dir,
            },
        )
    }
}

/// What the path and the query of a shorthand with a scheme say.
pub open spec fn by_scheme(scheme: Seq<char>, path: Seq<char>, query: Query) -> Result<
    Shorthand,
    Seq<char>,
> {
    let parts = path_segments(path);
    if scheme == "github"@ {
        github(parts, query)
    } else if scheme == "gitlab"@ {
        gitlab(parts, query)
    } else if scheme == "sourcehut"@ {
        sourcehut(parts, query)
    } else {
        Err("unsupported shorthand scheme "@ + scheme)
    }
}

/// What a shorthand says, or what is wrong with it.
pub open spec fn shorthand(value: Seq<char>) -> Result<Shorthand, Seq<char>> {
    match halves(value, ':') {
        None => Err("missing shorthand scheme"@),
        Some((scheme, rest)) => match halves(rest, '?') {
            None => by_scheme(scheme, rest, empty_query()),
            Some((path, query)) => match query_of(
                pieces(query, '&'),
                pieces(query, '&').len() as int,
            ) {
                Ok(parsed) => by_scheme(scheme, path, parsed),
                Err(detail) => Err(detail),
            },
        },
    }
}

fn parse_github_shorthand(path: &str, query: ParsedShorthandQuery) -> (r: Result<
    ParsedShorthandUrl,
    String,
>)
    ensures
        read_as(r, github(path_segments(path@), query@)),
{
    let parts = segments(path);
    if !(parts.len() == 2 || parts.len() == 3) {
        return Err("github shorthand must be owner/repo or owner/repo/ref".to_owned());
    }
    if parts.len() == 3 && query.ref_name.is_some() {
        return Err("github shorthand path ref and query ref are ambiguous together".to_owned());
    }
    let ref_name = if parts.len() == 3 {
        Some(parts[2].clone())
    } else {
        query.ref_name
    };
    proof {
        assert(texts(parts@)[0] == parts@[0]@);
        assert(texts(parts@)[1] == parts@[1]@);
        if parts@.len() == 3 {
            assert(texts(parts@)[2] == parts@[2]@);
        }
    }
    Ok(
        ParsedShorthandUrl {
            kind: ShorthandKind::Github,
            host: or_default(query.host, "github.com"),
            repo_path: concat3(&parts[0], "/", &parts[1]),
            ref_name,
            rev: query.rev,
            dir: query.dir,
        },
    )
}

fn parse_gitlab_shorthand(path: &str, query: ParsedShorthandQuery) -> (r: Result<
    ParsedShorthandUrl,
    String,
>)
    ensures
        read_as(r, gitlab(path_segments(path@), query@)),
{
    let parts = segments(path);
    if parts.len() < 2 {
        return Err("gitlab shorthand must include at least group/project".to_owned());
    }
    Ok(
        ParsedShorthandUrl {
            kind: ShorthandKind::Gitlab,
            host: or_default(query.host, "gitlab.com"),
            repo_path: join(&parts, "/"),
            ref_name: query.ref_name,
            rev: query.rev,
            dir: query.dir,
        },
    )
}

fn parse_sourcehut_shorthand(path: &str, query: ParsedShorthandQuery) -> (r: Result<
    ParsedShorthandUrl,
    String,
>)
    ensures
        read_as(r, sourcehut(path_segments(path@), query@)),
{
    let parts = segments(path);
    proof {
        if parts@.len() == 2 {
            assert(texts(parts@)[0] == parts@[0]@);
            assert(texts(parts@)[1] == parts@[1]@);
        }
    }
    if parts.len() != 2 || !starts_with(&parts[0], "~") {
        return Err("sourcehut shorthand must be ~user/project".to_owned());
    }
    Ok(
        ParsedShorthandUrl {
            kind: ShorthandKind::Sourcehut,
            host: or_default(query.host, "git.sr.ht"),
            repo_path: concat3(&parts[0], "/", &parts[1]),
            ref_name: query.ref_name,
            rev: query.rev,
            dir: query.dir,
        },
    )
}

fn read_shorthand(value: &str) -> (r: Result<ParsedShorthandUrl, String>)
    ensures
        read_as(r, shorthand(value@)),
{
    let (scheme, rest) = match split_once(value, ':') {
        Some(halves) => halves,
        None => {
            return Err("missing shorthand scheme".to_owned());
        },
    };
    let (path, query) = match split_once(&rest, '?') {
        Some((path, query)) => match parse_query(&query) {
            Ok(parsed) => (path, parsed),
            Err(detail) => {
                return Err(detail);
            },
        },
        None => (
            rest,
            ParsedShorthandQuery { host: None, ref_name: None, rev: None, dir: None },
        ),
    };
    if same(&scheme, "github") {
        parse_github_shorthand(&path, query)
    } else if same(&scheme, "gitlab") {
        parse_gitlab_shorthand(&path, query)
    } else if same(&scheme, "sourcehut") {
        parse_sourcehut_shorthand(&path, query)
    } else {
        Err(concat2("unsupported shorthand scheme ", &scheme))
    }
}

/// What a shorthand says.
pub fn parse_shorthand_url(input_name: &str, value: &str) -> (r: Result<
    ParsedShorthandUrl,
    MigrationError,
>)
    ensures
        match r {
            Ok(parsed) => shorthand(value@) == Ok::<Shorthand, Seq<char>>(parsed@),
            Err(MigrationError::UnsupportedShorthand { input_name: name, detail }) => shorthand(
                value@,
            ) == Err::<Shorthand, Seq<char>>(detail@) && name@ == input_name@,
            Err(_) => false,
        },
{
    match read_shorthand(value) {
        Ok(parsed) => Ok(parsed),
        Err(detail) => Err(
            MigrationError::UnsupportedShorthand { input_name: input_name.to_owned(), detail },
        ),
    }
}

// ---------------------------------------------------------------------------
// Git URLs

pub open spec fn parameter(key: Seq<char>, value: Option<Seq<char>>) -> Seq<Seq<char>> {
    match value {
        Some(text) => seq![key + text],
        None => Seq::empty(),
    }
}

/// The parameters that a Git URL carries over from a shorthand.
pub open spec fn url_parameters(value: Shorthand) -> Seq<Seq<char>> {
    parameter("dir="@, value.dir) + parameter("ref="@, value.ref_name) + parameter(
        "rev="@,
        value.rev,
    )
}

/// The Git URL of what a shorthand says.
pub open spec fn git_url(value: Shorthand, target: MigrationTransport) -> Seq<char> {
    let base = match target {
        MigrationTransport::GitHttps => "git+https://"@ + value.host + "/"@ + value.repo_path,
        MigrationTransport::GitSsh => "git+ssh://git@"@ + value.host + "/"@ + value.repo_path,
    };
    if url_parameters(value).len() == 0 {
        base
    } else {
        base + "?"@ + joined(url_parameters(value), "&"@)
    }
}

fn push_parameter(out: &mut Vec<String>, key: &str, value: &Option<String>)
    ensures
        texts(final(out)@) == texts(old(out)@) + parameter(key@, text_of(*value)),
{
    let ghost before = out@;
    match value {
        Some(text) => {
            let pair = concat2(key, text);
            proof {
                crate::text::lemma_texts_push(out@, pair);
            }
            out.push(pair);
            assert(texts(out@) =~= texts(before) + parameter(key@, text_of(*value)));
        },
        None => {
            assert(texts(out@) =~= texts(before) + parameter(key@, text_of(*value)));
        },
    }
}

/// The Git URL of what a shorthand says.
pub fn render_git_url(value: &ParsedShorthandUrl, target: MigrationTransport) -> (r: String)
    ensures
        r@ == git_url(value@, target),
{
    let base = match target {
        MigrationTransport::GitHttps => concat4(
            "git+https://",
            &value.host,
            "/",
            &value.repo_path,
        ),
        MigrationTransport::GitSsh => concat4(
            "git+ssh://git@",
            &value.host,
            "/",
            &value.repo_path,
        ),
    };
    let mut query: Vec<String> = Vec::new();
    assert(texts(query@) =~= Seq::empty());
    push_parameter(&mut query, "dir=", &value.dir);
    push_parameter(&mut query, "ref=", &value.ref_name);
    push_parameter(&mut query, "rev=", &value.rev);
    assert(texts(query@) =~= url_parameters(value@));
    if query.len() == 0 {
        base
    } else {
        concat3(&base, "?", &join(&query, "&"))
    }
}

/// Whether a URL is one of a Git transport.
pub open spec fn is_git_url(url: Seq<char>) -> bool {
    crate::text::begins(url, "git+https://"@) || crate::text::begins(url, "git+ssh://"@)
}

/// Whether a URL is one of a Git transport.
pub fn matches_git_transport(url: &str) -> (r: bool)
    ensures
        r == is_git_url(url@),
{
    starts_with(url, "git+https://") || starts_with(url, "git+ssh://")
}

/// What a shorthand is rewritten to is a URL of a Git transport, and no shorthand.
pub proof fn law_rewritten_url_uses_git_transport(value: Shorthand, target: MigrationTransport)
    ensures
        is_git_url(git_url(value, target)),
        !is_shorthand(git_url(value, target)),
{
    reveal_strlit("git+https://");
    reveal_strlit("git+ssh://");
    reveal_strlit("git+ssh://git@");
    reveal_strlit("github:");
    reveal_strlit("gitlab:");
    reveal_strlit("sourcehut:");
    let url = git_url(value, target);
    match target {
        MigrationTransport::GitHttps => {
            assert(url.take("git+https://"@.len() as int) =~= "git+https://"@);
        },
        MigrationTransport::GitSsh => {
            assert(url.take("git+ssh://"@.len() as int) =~= "git+ssh://"@);
        },
    }
    assert(url[3] == '+');
    assert(url[0] == 'g');
    assert("github:"@[3] == 'h');
    assert("gitlab:"@[3] == 'l');
    assert("sourcehut:"@[0] == 's');
}

// ---------------------------------------------------------------------------
// Plain URLs

/// Whether a part of a URL is plain, where there is one.
spec fn plain_part(part: Option<Seq<char>>) -> bool {
    part matches Some(text) ==> plain(text)
}

spec fn all_plain(parts: Seq<Seq<char>>) -> bool {
    forall|i: int| 0 <= i < parts.len() ==> plain(#[trigger] parts[i])
}

proof fn lemma_plain_range(s: Seq<char>, from: int, to: int)
    requires
        plain(s),
        0 <= from <= to <= s.len(),
    ensures
        plain(s.subrange(from, to)),
{
    let r = s.subrange(from, to);
    assert forall|i: int| 0 <= i < r.len() implies (#[trigger] r[i] as u32) < 0x80 by {
        assert(r[i] == s[from + i]);
    }
    assert forall|i: int| 0 <= i && i + 1 < r.len() && #[trigger] r[i] == '$' implies r[i + 1]
        != '{' by {
        assert(r[i] == s[from + i]);
        assert(r[i + 1] == s[from + i + 1]);
    }
}

/// Plain texts make a plain text, unless a `{` follows a `$`.
proof fn lemma_plain_sum(a: Seq<char>, b: Seq<char>)
    requires
        plain(a),
        plain(b),
        a.len() > 0 && b.len() > 0 ==> a.last() != '$' || b[0] != '{',
    ensures
        plain(a + b),
{
    let r = a + b;
    assert forall|i: int| 0 <= i < r.len() implies (#[trigger] r[i] as u32) < 0x80 by {
        assert(r[i] == if i < a.len() {
            a[i]
        } else {
            b[i - a.len()]
        });
    }
    assert forall|i: int| 0 <= i && i + 1 < r.len() && #[trigger] r[i] == '$' implies r[i + 1]
        != '{' by {
        if i + 1 < a.len() {
            assert(r[i] == a[i]);
        } else if i >= a.len() {
            assert(r[i] == b[i - a.len()]);
            assert(r[i + 1] == b[i + 1 - a.len()]);
        }
    }
}

/// Whether a text can stand between any two plain ones.
spec fn separates(sep: Seq<char>) -> bool {
    plain(sep) && sep.len() > 0 && sep[0] != '{' && sep.last() != '$'
}

proof fn lemma_plain_between(a: Seq<char>, sep: Seq<char>, b: Seq<char>)
    requires
        plain(a),
        separates(sep),
        plain(b),
    ensures
        plain(a + sep + b),
{
    lemma_plain_sum(a, sep);
    lemma_plain_sum(a + sep, b);
}

proof fn lemma_plain_halves(s: Seq<char>, c: char)
    requires
        plain(s),
    ensures
        halves(s, c) matches Some((before, after)) ==> plain(before) && plain(after),
{
    lemma_run(s, not_char(c));
    let i = run(s, not_char(c)) as int;
    if i < s.len() {
        lemma_plain_range(s, 0, i);
        lemma_plain_range(s, i + 1, s.len() as int);
        assert(s.take(i) =~= s.subrange(0, i));
        assert(s.skip(i + 1) =~= s.subrange(i + 1, s.len() as int));
    }
}

proof fn lemma_plain_pieces(s: Seq<char>, c: char)
    requires
        plain(s),
    ensures
        all_plain(pieces(s, c)),
    decreases s.len(),
{
    lemma_run(s, not_char(c));
    lemma_plain_halves(s, c);
    let i = run(s, not_char(c)) as int;
    if i < s.len() {
        lemma_plain_pieces(s.skip(i + 1), c);
        let rest = pieces(s.skip(i + 1), c);
        assert forall|k: int| 0 <= k < pieces(s, c).len() implies plain(
            #[trigger] pieces(s, c)[k],
        ) by {
            if k > 0 {
                assert(pieces(s, c)[k] == rest[k - 1]);
            }
        }
    }
}

proof fn lemma_plain_filtered(parts: Seq<Seq<char>>, keep: spec_fn(Seq<char>) -> bool)
    requires
        all_plain(parts),
    ensures
        all_plain(parts.filter(keep)),
    decreases parts.len(),
{
    reveal(Seq::filter);
    if parts.len() > 0 {
        lemma_plain_filtered(parts.drop_last(), keep);
        assert(plain(parts[parts.len() - 1]));
        assert forall|i: int| 0 <= i < parts.filter(keep).len() implies plain(
            #[trigger] parts.filter(keep)[i],
        ) by {
            let before = parts.drop_last().filter(keep);
            if i < before.len() {
                assert(parts.filter(keep)[i] == before[i]);
            }
        }
    }
}

proof fn lemma_plain_joined(parts: Seq<Seq<char>>, sep: Seq<char>)
    requires
        all_plain(parts),
        separates(sep),
    ensures
        plain(joined(parts, sep)),
    decreases parts.len(),
{
    if parts.len() == 1 {
        assert(plain(parts[0]));
    } else if parts.len() > 1 {
        lemma_plain_joined(parts.drop_last(), sep);
        assert(plain(parts[parts.len() - 1]));
        lemma_plain_between(joined(parts.drop_last(), sep), sep, parts.last());
    }
}

spec fn plain_query(query: Query) -> bool {
    plain_part(query.host) && plain_part(query.ref_name) && plain_part(query.rev) && plain_part(
        query.dir,
    )
}

proof fn lemma_plain_query(pairs: Seq<Seq<char>>, n: int)
    requires
        all_plain(pairs),
        n <= pairs.len(),
    ensures
        query_of(pairs, n) matches Ok(query) ==> plain_query(query),
    decreases n,
{
    if n > 0 {
        lemma_plain_query(pairs, n - 1);
        assert(plain(pairs[n - 1]));
        lemma_plain_halves(pairs[n - 1], '=');
    }
}

/// A plain shorthand says plain things.
proof fn lemma_plain_shorthand(value: Seq<char>)
    requires
        plain(value),
        shorthand(value) is Ok,
    ensures
        plain(shorthand(value)->Ok_0.host),
        plain(shorthand(value)->Ok_0.repo_path),
        plain_part(shorthand(value)->Ok_0.ref_name),
        plain_part(shorthand(value)->Ok_0.rev),
        plain_part(shorthand(value)->Ok_0.dir),
{
    reveal_strlit("github.com");
    reveal_strlit("gitlab.com");
    reveal_strlit("git.sr.ht");
    reveal_strlit("/");
    lemma_plain_halves(value, ':');
    let (_, rest) = halves(value, ':')->0;
    lemma_plain_halves(rest, '?');
    let path = match halves(rest, '?') {
        None => rest,
        Some((path, query)) => {
            lemma_plain_pieces(query, '&');
            lemma_plain_query(pieces(query, '&'), pieces(query, '&').len() as int);
            path
        },
    };
    lemma_plain_pieces(path, '/');
    lemma_plain_filtered(pieces(path, '/'), |part: Seq<char>| part.len() > 0);
    let parts = path_segments(path);
    assert(separates("/"@));
    lemma_plain_joined(parts, "/"@);
    if parts.len() >= 2 {
        assert(plain(parts[0]) && plain(parts[1]));
        lemma_plain_between(parts[0], "/"@, parts[1]);
    }
    if parts.len() >= 3 {
        assert(plain(parts[2]));
    }
}

/// A plain shorthand is rewritten to a plain URL.
pub proof fn law_plain_shorthand_gives_plain_url(value: Seq<char>, target: MigrationTransport)
    requires
        plain(value),
        shorthand(value) is Ok,
    ensures
        plain(git_url(shorthand(value)->Ok_0, target)),
{
    reveal_strlit("git+https://");
    reveal_strlit("git+ssh://git@");
    reveal_strlit("/");
    reveal_strlit("?");
    reveal_strlit("&");
    reveal_strlit("dir=");
    reveal_strlit("ref=");
    reveal_strlit("rev=");
    let says = shorthand(value)->Ok_0;
    lemma_plain_shorthand(value);
    let scheme = match target {
        MigrationTransport::GitHttps => "git+https://"@,
        MigrationTransport::GitSsh => "git+ssh://git@"@,
    };
    assert(separates(scheme));
    lemma_plain_sum(scheme, says.host);
    assert(separates("/"@));
    lemma_plain_between(scheme + says.host, "/"@, says.repo_path);
    let base = scheme + says.host + "/"@ + says.repo_path;
    assert(plain(base));
    lemma_plain_parameter("dir="@, says.dir);
    lemma_plain_parameter("ref="@, says.ref_name);
    lemma_plain_parameter("rev="@, says.rev);
    let parameters = url_parameters(says);
    assert(all_plain(parameters));
    assert(separates("&"@));
    lemma_plain_joined(parameters, "&"@);
    assert(separates("?"@));
    lemma_plain_between(base, "?"@, joined(parameters, "&"@));
}

proof fn lemma_plain_parameter(key: Seq<char>, value: Option<Seq<char>>)
    requires
        separates(key),
        plain_part(value),
    ensures
        all_plain(parameter(key, value)),
{
    match value {
        Some(text) => {
            lemma_plain_sum(key, text);
        },
        None => {},
    }
}

// ---------------------------------------------------------------------------
// What a rewritten URL carries over

/// A shorthand as it is written with a query.
pub open spec fn written(scheme: Seq<char>, path: Seq<char>, query: Seq<char>) -> Seq<char> {
    scheme + seq![':'] + (path + seq!['?'] + query)
}

/// Whether one of the pairs of a query is a key with a value.
pub open spec fn says(query: Seq<char>, key: Seq<char>, value: Seq<char>) -> bool {
    pieces(query, '&').contains(key + value)
}

/// Whether a URL has a parameter: it stands behind `?` or `&`, and ends the URL or stands before
/// `&`.
pub open spec fn carries(url: Seq<char>, parameter: Seq<char>) -> bool {
    exists|i: int|
        {
            &&& #[trigger] stands_at(url, parameter, i)
            &&& i > 0
            &&& url[i - 1] == '?' || url[i - 1] == '&'
            &&& i + parameter.len() == url.len() || url[i + parameter.len()] == '&'
        }
}

/// Whether one of the first `n` pairs is a key with a value.
spec fn said(pairs: Seq<Seq<char>>, n: int, key: Seq<char>, value: Seq<char>) -> bool {
    pairs.take(n).contains(key + value)
}

/// Whether a pair is empty or says something of one of the keys that a query knows.
pub open spec fn known_pair(pair: Seq<char>) -> bool {
    ||| pair.len() == 0
    ||| crate::text::begins(pair, "dir="@)
    ||| crate::text::begins(pair, "ref="@)
    ||| crate::text::begins(pair, "rev="@)
    ||| crate::text::begins(pair, "host="@)
}

/// Whether two pairs say something of the same key.
pub open spec fn same_key(a: Seq<char>, b: Seq<char>) -> bool {
    ||| crate::text::begins(a, "dir="@) && crate::text::begins(b, "dir="@)
    ||| crate::text::begins(a, "ref="@) && crate::text::begins(b, "ref="@)
    ||| crate::text::begins(a, "rev="@) && crate::text::begins(b, "rev="@)
    ||| crate::text::begins(a, "host="@) && crate::text::begins(b, "host="@)
}

/// Whether a query says nothing unknown, and nothing twice.
pub open spec fn sound_pairs(pairs: Seq<Seq<char>>, n: int) -> bool {
    &&& forall|i: int| 0 <= i < n ==> known_pair(#[trigger] pairs[i])
    &&& forall|i: int, j: int|
        0 <= i < j < n ==> !same_key(#[trigger] pairs[i], #[trigger] pairs[j])
}

/// Whether the key of a pair is `name`.
spec fn key_is(pair: Seq<char>, name: Seq<char>) -> bool {
    match halves(pair, '=') {
        Some((key, _)) => key == name,
        None => false,
    }
}

/// The value of a pair.
spec fn value_of(pair: Seq<char>) -> Seq<char> {
    match halves(pair, '=') {
        Some((_, value)) => value,
        None => Seq::empty(),
    }
}

/// A pair with a key before its first `=`.
proof fn lemma_pair_of_key(pair: Seq<char>, name: Seq<char>, key: Seq<char>)
    requires
        key == name + seq!['='],
        !name.contains('='),
    ensures
        crate::text::begins(pair, key) <==> key_is(pair, name),
        crate::text::begins(pair, key) ==> halves(pair, '=') == Some(
            (name, pair.skip(key.len() as int)),
        ) && pair == key + pair.skip(key.len() as int),
{
    if crate::text::begins(pair, key) {
        let value = pair.skip(key.len() as int);
        assert(pair =~= key + value);
        assert(pair =~= name + seq!['='] + value);
        law_halves(pair, name, value, '=');
    }
    match halves(pair, '=') {
        Some((a, b)) => {
            law_halves(pair, a, b, '=');
            if a == name {
                assert(pair.take(key.len() as int) =~= key);
            }
        },
        None => {},
    }
}

proof fn lemma_pair_keys(pair: Seq<char>)
    ensures
        crate::text::begins(pair, "dir="@) <==> key_is(pair, "dir"@),
        crate::text::begins(pair, "ref="@) <==> key_is(pair, "ref"@),
        crate::text::begins(pair, "rev="@) <==> key_is(pair, "rev"@),
        crate::text::begins(pair, "host="@) <==> key_is(pair, "host"@),
        crate::text::begins(pair, "dir="@) ==> pair == "dir="@ + value_of(pair),
        crate::text::begins(pair, "ref="@) ==> pair == "ref="@ + value_of(pair),
        crate::text::begins(pair, "rev="@) ==> pair == "rev="@ + value_of(pair),
        crate::text::begins(pair, "host="@) ==> pair == "host="@ + value_of(pair),
        "dir"@ != "ref"@ && "dir"@ != "rev"@ && "dir"@ != "host"@ && "ref"@ != "rev"@ && "ref"@
            != "host"@ && "rev"@ != "host"@,
{
    reveal_strlit("dir");
    reveal_strlit("ref");
    reveal_strlit("rev");
    reveal_strlit("host");
    reveal_strlit("dir=");
    reveal_strlit("ref=");
    reveal_strlit("rev=");
    reveal_strlit("host=");
    assert("dir="@ =~= "dir"@ + seq!['=']);
    assert("ref="@ =~= "ref"@ + seq!['=']);
    assert("rev="@ =~= "rev"@ + seq!['=']);
    assert("host="@ =~= "host"@ + seq!['=']);
    assert("dir"@[0] == 'd' && "ref"@[0] == 'r' && "host"@[0] == 'h' && "rev"@[0] == 'r');
    assert("ref"@[2] == 'f' && "rev"@[2] == 'v');
    lemma_pair_of_key(pair, "dir"@, "dir="@);
    lemma_pair_of_key(pair, "ref"@, "ref="@);
    lemma_pair_of_key(pair, "rev"@, "rev="@);
    lemma_pair_of_key(pair, "host"@, "host="@);
}

/// Whether a part of a query is what its pairs say of a key.
spec fn field_said(
    pairs: Seq<Seq<char>>,
    n: int,
    key: Seq<char>,
    field: Option<Seq<char>>,
) -> bool {
    &&& field is None ==> forall|i: int|
        0 <= i < n ==> !crate::text::begins(#[trigger] pairs[i], key)
    &&& field matches Some(value) ==> exists|i: int| 0 <= i < n && #[trigger] pairs[i] == key + value
}

proof fn lemma_field_grows(
    pairs: Seq<Seq<char>>,
    n: int,
    key: Seq<char>,
    field: Option<Seq<char>>,
    value: Seq<char>,
)
    requires
        0 <= n < pairs.len(),
        field_said(pairs, n, key, field),
    ensures
        !crate::text::begins(pairs[n], key) ==> field_said(pairs, n + 1, key, field),
        pairs[n] == key + value ==> field_said(pairs, n + 1, key, Some(value)),
        pairs[n] == key + value ==> crate::text::begins(pairs[n], key),
        field is Some ==> exists|i: int| 0 <= i < n && crate::text::begins(#[trigger] pairs[i], key),
{
    if field is Some {
        let i = choose|i: int| 0 <= i < n && #[trigger] pairs[i] == key + field->0;
        assert(pairs[i].take(key.len() as int) =~= key);
        assert(crate::text::begins(pairs[i], key));
        assert(0 <= i < n + 1 && pairs[i] == key + field->0);
    }
    if pairs[n] == key + value {
        assert(pairs[n].take(key.len() as int) =~= key);
    }
}

/// The parameters of a query are what its pairs say, and it is refused where they say something
/// unknown or something twice.
#[verifier::spinoff_prover]
proof fn lemma_query_says(pairs: Seq<Seq<char>>, n: int)
    requires
        0 <= n <= pairs.len(),
    ensures
        query_of(pairs, n) is Ok <==> sound_pairs(pairs, n),
        query_of(pairs, n) matches Ok(query) ==> {
            &&& field_said(pairs, n, "dir="@, query.dir)
            &&& field_said(pairs, n, "ref="@, query.ref_name)
            &&& field_said(pairs, n, "rev="@, query.rev)
            &&& field_said(pairs, n, "host="@, query.host)
        },
    decreases n,
{
    if n > 0 {
        let m = n - 1;
        let pair = pairs[m];
        lemma_query_says(pairs, m);
        lemma_pair_keys(pair);
        if sound_pairs(pairs, m) {
            let before = query_of(pairs, m)->Ok_0;
            let value = value_of(pair);
            lemma_field_grows(pairs, m, "dir="@, before.dir, value);
            lemma_field_grows(pairs, m, "ref="@, before.ref_name, value);
            lemma_field_grows(pairs, m, "rev="@, before.rev, value);
            lemma_field_grows(pairs, m, "host="@, before.host, value);
            if pair.len() == 0 {
                reveal_strlit("dir=");
                reveal_strlit("ref=");
                reveal_strlit("rev=");
                reveal_strlit("host=");
            }
            lemma_taken(pairs, m, "dir="@, before.dir);
            lemma_taken(pairs, m, "ref="@, before.ref_name);
            lemma_taken(pairs, m, "rev="@, before.rev);
            lemma_taken(pairs, m, "host="@, before.host);
            assert(known_pair(pair) || !sound_pairs(pairs, n));
            if known_pair(pair) {
                if forall|i: int| 0 <= i < m ==> !same_key(#[trigger] pairs[i], pair) {
                    assert(sound_pairs(pairs, n));
                } else {
                    assert(!sound_pairs(pairs, n));
                }
            }
        } else {
            assert(!sound_pairs(pairs, n));
        }
    }
}

proof fn lemma_taken(pairs: Seq<Seq<char>>, m: int, key: Seq<char>, field: Option<Seq<char>>)
    requires
        0 <= m < pairs.len(),
        field_said(pairs, m, key, field),
    ensures
        field is Some <==> exists|i: int|
            0 <= i < m && crate::text::begins(#[trigger] pairs[i], key),
{
    lemma_field_grows(pairs, m, key, field, Seq::empty());
}

proof fn lemma_written(scheme: Seq<char>, path: Seq<char>, query: Seq<char>)
    requires
        !scheme.contains(':'),
        !path.contains('?'),
    ensures
        shorthand(written(scheme, path, query)) == (match query_of(
            pieces(query, '&'),
            pieces(query, '&').len() as int,
        ) {
            Ok(parsed) => by_scheme(scheme, path, parsed),
            Err(detail) => Err(detail),
        }),
{
    let rest = path + seq!['?'] + query;
    law_halves(written(scheme, path, query), scheme, rest, ':');
    law_halves(rest, path, query, '?');
}

/// A shorthand without a query says what it says with an empty one.
pub proof fn law_empty_queries_say_nothing(scheme: Seq<char>, path: Seq<char>)
    requires
        !scheme.contains(':'),
        !path.contains('?'),
    ensures
        shorthand(scheme + seq![':'] + path) == shorthand(written(scheme, path, Seq::empty())),
{
    lemma_written(scheme, path, Seq::empty());
    law_halves(scheme + seq![':'] + path, scheme, path, ':');
    law_halves(path, path, path, '?');
    let none = Seq::<char>::empty();
    assert(run(none, not_char('&')) == 0);
    assert(pieces(none, '&') =~= seq![none]);
    reveal_with_fuel(query_of, 2);
    assert(query_of(pieces(none, '&'), 1) == Ok::<Query, Seq<char>>(empty_query()));
}

/// The rewritten URL carries over every parameter that the query of an accepted shorthand says: for
/// each pair `rev=X`, `dir=X` or `ref=X`, the URL has that parameter.
pub proof fn law_rewritten_url_carries_parameters(
    scheme: Seq<char>,
    path: Seq<char>,
    query: Seq<char>,
    key: Seq<char>,
    value: Seq<char>,
    target: MigrationTransport,
)
    requires
        !scheme.contains(':'),
        !path.contains('?'),
        shorthand(written(scheme, path, query)) is Ok,
        key == "rev="@ || key == "dir="@ || key == "ref="@,
        says(query, key, value),
    ensures
        carries(git_url(shorthand(written(scheme, path, query))->Ok_0, target), key + value),
{
    lemma_written(scheme, path, query);
    let pairs = pieces(query, '&');
    let n = pairs.len() as int;
    lemma_query_says(pairs, n);
    let parsed = query_of(pairs, n)->Ok_0;
    let found = shorthand(written(scheme, path, query))->Ok_0;
    let field = if key == "rev="@ {
        parsed.rev
    } else if key == "dir="@ {
        parsed.dir
    } else {
        parsed.ref_name
    };
    let i = choose|i: int| 0 <= i < pairs.len() && pairs[i] == key + value;
    assert(pairs[i].take(key.len() as int) =~= key);
    assert(crate::text::begins(pairs[i], key));
    assert(field is Some);
    let j = choose|j: int| 0 <= j < n && #[trigger] pairs[j] == key + field->0;
    assert(pairs[j].take(key.len() as int) =~= key);
    assert(same_key(pairs[i], pairs[j]) && same_key(pairs[j], pairs[i]));
    assert(i == j);
    assert(pairs[i].skip(key.len() as int) =~= value);
    assert(pairs[j].skip(key.len() as int) =~= field->0);
    assert(field == Some(value));
    reveal_strlit("rev=");
    reveal_strlit("dir=");
    reveal_strlit("ref=");
    assert("rev="@[0] == 'r' && "dir="@[0] == 'd' && "ref="@[0] == 'r' && "rev="@[2] == 'v'
        && "ref="@[2] == 'f');
    let all = url_parameters(found);
    let d = parameter("dir="@, found.dir);
    let r = parameter("ref="@, found.ref_name);
    let at = if key == "rev="@ {
        assert(found.rev == Some(value));
        (d.len() + r.len()) as int
    } else if key == "dir="@ {
        assert(found.dir == Some(value));
        0
    } else {
        assert(found.ref_name == Some(value));
        d.len() as int
    };
    assert(all[at] == key + value);
    lemma_url_carries(found, target, at);
}

proof fn lemma_url_carries(found: Shorthand, target: MigrationTransport, at: int)
    requires
        0 <= at < url_parameters(found).len(),
    ensures
        carries(git_url(found, target), url_parameters(found)[at]),
{
    reveal_strlit("?");
    reveal_strlit("&");
    let all = url_parameters(found);
    let url = git_url(found, target);
    let tail = joined(all, "&"@);
    let base = url.take(url.len() - tail.len() - 1);
    assert(url =~= base + "?"@ + tail);
    let i = lemma_joined_part(all, "&"@, at);
    let p = all[at];
    let k = base.len() + 1 + i;
    assert(url.subrange(k, k + p.len()) =~= tail.subrange(i, i + p.len()));
    assert(stands_at(url, p, k));
    if i > 0 {
        assert(url[k - 1] == tail[i - 1]);
    } else {
        assert(url[k - 1] == '?');
    }
    if i + p.len() < tail.len() {
        assert(url[k + p.len()] == tail[i + p.len()]);
    }
}

/// Where a part stands among the parts that are joined.
proof fn lemma_joined_part(parts: Seq<Seq<char>>, sep: Seq<char>, at: int) -> (i: int)
    requires
        0 <= at < parts.len(),
        sep.len() == 1,
    ensures
        stands_at(joined(parts, sep), parts[at], i),
        i == 0 || joined(parts, sep)[i - 1] == sep[0],
        i + parts[at].len() == joined(parts, sep).len() || joined(parts, sep)[i + parts[at].len()]
            == sep[0],
    decreases parts.len(),
{
    let whole = joined(parts, sep);
    let p = parts[at];
    if parts.len() == 1 {
        assert(whole.subrange(0, p.len() as int) =~= p);
        0
    } else {
        let front = joined(parts.drop_last(), sep);
        if at == parts.len() - 1 {
            let i = front.len() as int + 1;
            assert(whole.subrange(i, i + p.len()) =~= p);
            assert(whole[i - 1] == sep[0]);
            i
        } else {
            let i = lemma_joined_part(parts.drop_last(), sep, at);
            assert(whole.subrange(i, i + p.len()) =~= front.subrange(i, i + p.len()));
            if i > 0 {
                assert(whole[i - 1] == front[i - 1]);
            }
            assert(whole[front.len() as int] == sep[0]);
            if i + p.len() < front.len() {
                assert(whole[i + p.len()] == front[i + p.len()]);
            }
            i
        }
    }
}

/// What a rewritten URL is made of: the transport, the host that the query names or else the one
/// that is known by the scheme, the path, and parameters that the shorthand said: pairs of its
/// query, or for `github:` the third part of its path as the reference. There is nothing else.
pub proof fn law_rewritten_url_says_nothing_more(
    scheme: Seq<char>,
    path: Seq<char>,
    query: Seq<char>,
    target: MigrationTransport,
)
    requires
        !scheme.contains(':'),
        !path.contains('?'),
        shorthand(written(scheme, path, query)) is Ok,
    ensures
        scheme == "github"@ || scheme == "gitlab"@ || scheme == "sourcehut"@,
        exists|host: Seq<char>, parameters: Seq<Seq<char>>|
            {
                let parts = path_segments(path);
                let place = if scheme == "gitlab"@ {
                    joined(parts, seq!['/'])
                } else {
                    parts[0] + seq!['/'] + parts[1]
                };
                let base = (if target == MigrationTransport::GitHttps {
                    "git+https://"@
                } else {
                    "git+ssh://git@"@
                }) + host + seq!['/'] + place;
                &&& git_url(shorthand(written(scheme, path, query))->Ok_0, target) == (
                if parameters.len() == 0 {
                    base
                } else {
                    base + seq!['?'] + #[trigger] joined(parameters, seq!['&'])
                })
                &&& #[trigger] says(query, "host="@, host) || (host == (if scheme == "github"@ {
                    "github.com"@
                } else if scheme == "gitlab"@ {
                    "gitlab.com"@
                } else {
                    "git.sr.ht"@
                }) && forall|i: int|
                    0 <= i < pieces(query, '&').len() ==> !crate::text::begins(
                        #[trigger] pieces(query, '&')[i],
                        "host="@,
                    ))
                &&& forall|i: int|
                    0 <= i < parameters.len() ==> pieces(query, '&').contains(
                        #[trigger] parameters[i],
                    ) || (scheme == "github"@ && parts.len() == 3 && parameters[i] == "ref="@
                        + parts[2])
            },
{
    lemma_written(scheme, path, query);
    let pairs = pieces(query, '&');
    let n = pairs.len() as int;
    lemma_query_says(pairs, n);
    let parsed = query_of(pairs, n)->Ok_0;
    let found = shorthand(written(scheme, path, query))->Ok_0;
    let all = url_parameters(found);
    let parts = path_segments(path);
    reveal_strlit("/");
    reveal_strlit("?");
    reveal_strlit("&");
    reveal_strlit("github");
    reveal_strlit("gitlab");
    reveal_strlit("sourcehut");
    assert("/"@ =~= seq!['/']);
    assert("?"@ =~= seq!['?']);
    assert("&"@ =~= seq!['&']);
    assert("github"@[3] == 'h' && "gitlab"@[3] == 'l' && "sourcehut"@[0] == 's');
    assert forall|i: int| 0 <= i < all.len() implies pairs.contains(#[trigger] all[i]) || (scheme
        == "github"@ && parts.len() == 3 && all[i] == "ref="@ + parts[2]) by {
        let d = parameter("dir="@, found.dir);
        let r = parameter("ref="@, found.ref_name);
        if i < d.len() {
            let j = choose|j: int| 0 <= j < n && #[trigger] pairs[j] == "dir="@ + parsed.dir->0;
            assert(all[i] == pairs[j]);
        } else if i < d.len() + r.len() {
            if !(scheme == "github"@ && parts.len() == 3) {
                let j = choose|j: int|
                    0 <= j < n && #[trigger] pairs[j] == "ref="@ + parsed.ref_name->0;
                assert(all[i] == pairs[j]);
            } else {
                assert(all[i] == "ref="@ + parts[2]);
            }
        } else {
            let j = choose|j: int| 0 <= j < n && #[trigger] pairs[j] == "rev="@ + parsed.rev->0;
            assert(all[i] == pairs[j]);
        }
    }
    let host = found.host;
    if parsed.host is Some {
        let j = choose|j: int| 0 <= j < n && #[trigger] pairs[j] == "host="@ + parsed.host->0;
        assert(says(query, "host="@, host));
    }
    let named = says(query, "host="@, host);
    let tail = joined(all, seq!['&']);
}

/// A shorthand is accepted exactly where its scheme is one of the three, its query says nothing
/// unknown and nothing twice, and its path has the parts that the scheme asks for; `github:` does
/// not take a reference in both places.
pub proof fn law_accepted_shorthands(scheme: Seq<char>, path: Seq<char>, query: Seq<char>)
    requires
        !scheme.contains(':'),
        !path.contains('?'),
    ensures
        ({
            let parts = path_segments(path);
            let pairs = pieces(query, '&');
            shorthand(written(scheme, path, query)) is Ok <==> {
                &&& sound_pairs(pairs, pairs.len() as int)
                &&& {
                    ||| scheme == "github"@ && (parts.len() == 2 || parts.len() == 3 && forall|
                        i: int,
                    |
                        0 <= i < pairs.len() ==> !crate::text::begins(
                            #[trigger] pairs[i],
                            "ref="@,
                        ))
                    ||| scheme == "gitlab"@ && parts.len() >= 2
                    ||| scheme == "sourcehut"@ && parts.len() == 2 && parts[0].len() > 0
                        && parts[0][0] == '~'
                }
            }
        }),
{
    lemma_written(scheme, path, query);
    let pairs = pieces(query, '&');
    let n = pairs.len() as int;
    let parts = path_segments(path);
    lemma_query_says(pairs, n);
    reveal_strlit("github");
    reveal_strlit("gitlab");
    reveal_strlit("sourcehut");
    assert("github"@[3] == 'h' && "gitlab"@[3] == 'l' && "sourcehut"@[0] == 's');
    reveal_strlit("~");
    assert("~"@ =~= seq!['~']);
    assert(crate::text::begins(parts[0], "~"@) <==> parts[0].len() > 0 && parts[0][0] == '~') by {
        if parts[0].len() > 0 {
            assert(parts[0].take(1) =~= seq![parts[0][0]]);
            assert("~"@[0] == '~');
        }
    }
    if sound_pairs(pairs, n) {
        let parsed = query_of(pairs, n)->Ok_0;
        if parsed.ref_name is Some {
            let j = choose|j: int|
                0 <= j < n && #[trigger] pairs[j] == "ref="@ + parsed.ref_name->0;
            assert(pairs[j].take("ref="@.len() as int) =~= "ref="@);
            assert(crate::text::begins(pairs[j], "ref="@));
        }
    }
}

} // verus!
