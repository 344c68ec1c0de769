//! Unix paths as strings.

use crate::text::{
    chars_of, lemma_texts_push, pieces, same, split, string_of, text_of, texts,
};
use vstd::prelude::*;

verus! {

/// Whether a path starts at the root.
pub open spec fn absolute(path: Seq<char>) -> bool {
    path.len() > 0 && path[0] == '/'
}

/// Whether a path starts at the root.
pub fn is_absolute(path: &str) -> (r: bool)
    ensures
        r == absolute(path@),
{
    if path.is_empty() {
        false
    } else {
        path.get_char(0) == '/'
    }
}

/// `base` extended by `name`: an absolute `name` replaces it.
pub open spec fn joined_path(base: Seq<char>, name: Seq<char>) -> Seq<char> {
    if absolute(name) {
        name
    } else if base.len() == 0 || base.last() == '/' {
        base + name
    } else {
        base.push('/') + name
    }
}

/// `base` extended by `name`: an absolute `name` replaces it.
pub fn join(base: &str, name: &str) -> (r: String)
    ensures
        r@ == joined_path(base@, name@),
{
    if is_absolute(name) {
        return name.to_owned();
    }
    let mut out = base.to_owned();
    let n = base.unicode_len();
    if n > 0 && base.get_char(n - 1) != '/' {
        out.push('/');
    }
    out.append(name);
    out
}

/// The pieces of a path that name something: no empty piece, and `.` only where the path starts
/// with it.
pub open spec fn naming(ps: Seq<Seq<char>>) -> Seq<Seq<char>>
    decreases ps.len(),
{
    if ps.len() == 0 {
        Seq::empty()
    } else if ps.last().len() == 0 || (ps.last() == seq!['.'] && ps.len() > 1) {
        naming(ps.drop_last())
    } else {
        naming(ps.drop_last()).push(ps.last())
    }
}

/// The components of a path, with `/` in front where it is absolute.
pub open spec fn path_parts(path: Seq<char>) -> Seq<Seq<char>> {
    let root: Seq<Seq<char>> = if absolute(path) {
        seq![seq!['/']]
    } else {
        Seq::empty()
    };
    root + naming(pieces(path, '/'))
}

/// The components of a path, with `/` in front where it is absolute.
pub fn components(path: &str) -> (r: Vec<String>)
    ensures
        texts(r@) == path_parts(path@),
{
    let all = split(path, '/');
    let ghost ps = pieces(path@, '/');
    let mut out: Vec<String> = Vec::new();
    let ghost root: Seq<Seq<char>> = if absolute(path@) {
        seq![seq!['/']]
    } else {
        Seq::empty()
    };
    if is_absolute(path) {
        let slash = "/".to_owned();
        proof {
            reveal_strlit("/");
            lemma_texts_push(out@, slash);
            assert(slash@ =~= seq!['/']);
        }
        out.push(slash);
    }
    assert(texts(out@) =~= root + naming(ps.take(0)));
    let mut i: usize = 0;
    while i < all.len()
        invariant
            i <= all@.len(),
            texts(all@) == ps,
            texts(out@) == root + naming(ps.take(i as int)),
        decreases all@.len() - i,
    {
        let piece = &all[i];
        proof {
            reveal_strlit(".");
            assert(ps[i as int] == piece@);
            assert(ps.take(i + 1).drop_last() =~= ps.take(i as int));
            lemma_texts_push(out@, *piece);
            assert("."@ =~= seq!['.']);
            assert((root + naming(ps.take(i as int))).push(piece@) =~= root + naming(
                ps.take(i as int),
            ).push(piece@));
        }
        if !(piece.as_str().is_empty() || (same(piece, ".") && i > 0)) {
            out.push(piece.clone());
        }
        i += 1;
    }
    assert(ps.take(i as int) =~= ps);
    out
}

/// Whether `path` is `base` or lies under it, component by component.
pub open spec fn under(path: Seq<char>, base: Seq<char>) -> bool {
    path_parts(base).is_prefix_of(path_parts(path))
}

/// Whether `path` is `base` or lies under it, component by component.
pub fn starts_with(path: &str, base: &str) -> (r: bool)
    ensures
        r == under(path@, base@),
{
    let whole = components(path);
    let front = components(base);
    if front.len() > whole.len() {
        return false;
    }
    let mut i: usize = 0;
    while i < front.len()
        invariant
            i <= front@.len() <= whole@.len(),
            texts(whole@) == path_parts(path@),
            texts(front@) == path_parts(base@),
            forall|j: int| 0 <= j < i ==> front@[j]@ == whole@[j]@,
        decreases front@.len() - i,
    {
        if !same(&front[i], &whole[i]) {
            assert(texts(front@)[i as int] != texts(whole@)[i as int]);
            return false;
        }
        i += 1;
    }
    assert(texts(front@) =~= texts(whole@).subrange(0, front@.len() as int));
    true
}

/// Whether two paths have the same components.
pub open spec fn same_place(a: Seq<char>, b: Seq<char>) -> bool {
    path_parts(a) == path_parts(b)
}

/// Whether two paths have the same components.
pub fn same_path(a: &str, b: &str) -> (r: bool)
    ensures
        r == same_place(a@, b@),
{
    let down = starts_with(a, b);
    let up = starts_with(b, a);
    proof {
        if down && up {
            assert(path_parts(a@) =~= path_parts(b@));
        }
    }
    down && up
}

/// The index of the last `c` in `s`, or -1 where there is none.
pub open spec fn last_index(s: Seq<char>, c: char) -> int
    decreases s.len(),
{
    if s.len() == 0 {
        -1
    } else if s.last() == c {
        s.len() - 1
    } else {
        last_index(s.drop_last(), c)
    }
}

/// The extension of a file name: what follows its last dot, where something precedes that dot.
pub open spec fn name_extension(name: Seq<char>) -> Option<Seq<char>> {
    let dot = last_index(name, '.');
    if name == seq!['.', '.'] || dot <= 0 {
        None
    } else {
        Some(name.skip(dot + 1))
    }
}

/// The extension of the file that a path names.
pub open spec fn file_extension(path: Seq<char>) -> Option<Seq<char>> {
    let names = naming(pieces(path, '/'));
    if names.len() == 0 {
        None
    } else {
        name_extension(names.last())
    }
}

/// Whether a path names a file with the given extension.
pub fn has_extension(path: &str, extension: &str) -> (r: bool)
    ensures
        r == (file_extension(path@) == Some(extension@)),
{
    let parts = components(path);
    let ghost names = naming(pieces(path@, '/'));
    let rooted = is_absolute(path);
    let skip: usize = if rooted {
        1
    } else {
        0
    };
    proof {
        assert(texts(parts@).len() == parts@.len());
        if rooted {
            assert(path_parts(path@).len() == 1 + names.len());
        }
    }
    if parts.len() <= skip {
        return false;
    }
    let name = &parts[parts.len() - 1];
    proof {
        assert(texts(parts@).last() == name@);
        assert(names.last() == name@);
        reveal_strlit("..");
        assert(".."@ =~= seq!['.', '.']);
    }
    if same(name, "..") {
        return false;
    }
    let chars = chars_of(name);
    let mut i: usize = chars.len();
    assert(chars@.take(i as int) =~= chars@);
    while i > 0 && chars[i - 1] != '.'
        invariant
            i <= chars@.len(),
            last_index(chars@, '.') == last_index(chars@.take(i as int), '.'),
        decreases i,
    {
        assert(chars@.take(i as int).drop_last() =~= chars@.take(i - 1));
        i -= 1;
    }
    if i <= 1 {
        return false;
    }
    let found = string_of(&chars, i, chars.len());
    assert(found@ =~= name@.skip(i as int));
    same(&found, extension)
}

/// The name of the file that a path names, without its extension.
pub open spec fn file_stem_of(path: Seq<char>) -> Option<Seq<char>> {
    let names = naming(pieces(path, '/'));
    if names.len() == 0 || names.last() == seq!['.', '.'] || names.last() == seq!['.'] {
        None
    } else {
        let dot = last_index(names.last(), '.');
        Some(
            if dot <= 0 {
                names.last()
            } else {
                names.last().take(dot)
            },
        )
    }
}

/// The name of the file that a path names, without its extension.
pub fn file_stem(path: &str) -> (r: Option<String>)
    ensures
        text_of(r) == file_stem_of(path@),
{
    let parts = components(path);
    let ghost names = naming(pieces(path@, '/'));
    let rooted = is_absolute(path);
    let skip: usize = if rooted {
        1
    } else {
        0
    };
    proof {
        assert(texts(parts@).len() == parts@.len());
        if rooted {
            assert(path_parts(path@).len() == 1 + names.len());
        }
    }
    if parts.len() <= skip {
        return None;
    }
    let name = &parts[parts.len() - 1];
    proof {
        assert(texts(parts@).last() == name@);
        assert(names.last() == name@);
        reveal_strlit("..");
        reveal_strlit(".");
        assert(".."@ =~= seq!['.', '.']);
        assert("."@ =~= seq!['.']);
    }
    if same(name, "..") || same(name, ".") {
        return None;
    }
    let chars = chars_of(name);
    let mut i: usize = chars.len();
    assert(chars@.take(i as int) =~= chars@);
    while i > 0 && chars[i - 1] != '.'
        invariant
            i <= chars@.len(),
            last_index(chars@, '.') == last_index(chars@.take(i as int), '.'),
        decreases i,
    {
        assert(chars@.take(i as int).drop_last() =~= chars@.take(i - 1));
        i -= 1;
    }
    if i <= 1 {
        return Some(name.clone());
    }
    let stem = string_of(&chars, 0, i - 1);
    assert(stem@ =~= name@.take(i - 1));
    Some(stem)
}

// ---------------------------------------------------------------------------
// What paths mean

/// A relative name is put behind a base with one `/` between them, an absolute one stands alone.
pub proof fn law_joined_paths(base: Seq<char>, name: Seq<char>)
    requires
        base.len() > 0,
        base.last() != '/',
    ensures
        name.len() == 0 || name[0] != '/' ==> joined_path(base, name) == base + seq!['/'] + name,
        name.len() > 0 && name[0] == '/' ==> joined_path(base, name) == name,
        joined_path(base.push('/'), name) == joined_path(base, name),
{
    assert(base.push('/') + name =~= base + seq!['/'] + name);
}

/// The pieces of two texts with the separator between them.
pub proof fn lemma_pieces_joined(a: Seq<char>, b: Seq<char>, c: char)
    ensures
        pieces(a + seq![c] + b, c) == pieces(a, c) + pieces(b, c),
    decreases a.len(),
{
    let p = crate::text::not_char(c);
    let whole = a + seq![c] + b;
    crate::text::lemma_run(a, p);
    let n = crate::text::run(a, p);
    assert forall|i: int| 0 <= i < n implies p(#[trigger] whole[i]) by {
        assert(whole[i] == a[i]);
    }
    if n < a.len() {
        assert(whole[n as int] == a[n as int]);
        crate::text::lemma_run_is(whole, p, n);
        let rest = a.skip(n as int + 1);
        lemma_pieces_joined(rest, b, c);
        assert(whole.take(n as int) =~= a.take(n as int));
        assert(whole.skip(n as int + 1) =~= rest + seq![c] + b);
        assert(pieces(whole, c) =~= pieces(a, c) + pieces(b, c));
    } else {
        assert(whole[n as int] == c);
        crate::text::lemma_run_is(whole, p, n);
        assert(whole.take(n as int) =~= a);
        assert(whole.skip(n as int + 1) =~= b);
        assert(pieces(whole, c) =~= pieces(a, c) + pieces(b, c));
    }
}

proof fn lemma_naming_prefix(a: Seq<Seq<char>>, b: Seq<Seq<char>>)
    ensures
        naming(a).is_prefix_of(naming(a + b)),
    decreases b.len(),
{
    if b.len() == 0 {
        assert(a + b =~= a);
    } else {
        lemma_naming_prefix(a, b.drop_last());
        assert((a + b).drop_last() =~= a + b.drop_last());
        let shorter = naming(a + b.drop_last());
        let longer = naming(a + b);
        if longer != shorter {
            assert(longer =~= shorter.push((a + b).last()));
        }
        assert(longer.subrange(0, naming(a).len() as int) =~= shorter.subrange(
            0,
            naming(a).len() as int,
        ));
    }
}

/// What is put behind a path lies under it; each path lies under itself, and what lies under a path
/// that lies under another lies under that one too.
pub proof fn law_extended_paths_lie_under(
    base: Seq<char>,
    name: Seq<char>,
    a: Seq<char>,
    b: Seq<char>,
    c: Seq<char>,
)
    requires
        base.len() > 0,
        base.last() != '/',
        name.len() == 0 || name[0] != '/',
    ensures
        under(joined_path(base, name), base),
        under(a, a),
        under(a, b) && under(b, c) ==> under(a, c),
        under(a, b) && under(b, a) <==> same_place(a, b),
        under(a, b) ==> (absolute(b) ==> absolute(a)),
{
    law_joined_paths(base, name);
    let whole = base + seq!['/'] + name;
    lemma_pieces_joined(base, name, '/');
    lemma_naming_prefix(pieces(base, '/'), pieces(name, '/'));
    assert(whole[0] == base[0]);
    let root: Seq<Seq<char>> = if absolute(base) {
        seq![seq!['/']]
    } else {
        Seq::empty()
    };
    let short = naming(pieces(base, '/'));
    let long = naming(pieces(whole, '/'));
    assert(path_parts(whole).subrange(0, path_parts(base).len() as int) =~= root + long.subrange(
        0,
        short.len() as int,
    ));
    assert(path_parts(a).subrange(0, path_parts(a).len() as int) =~= path_parts(a));
    if under(a, b) && under(b, c) {
        let x = path_parts(a);
        let y = path_parts(b);
        let z = path_parts(c);
        assert(x.subrange(0, z.len() as int) =~= x.subrange(0, y.len() as int).subrange(
            0,
            z.len() as int,
        ));
    }
    if under(a, b) && under(b, a) {
        assert(path_parts(a) =~= path_parts(b));
    }
    if under(a, b) && absolute(b) && !absolute(a) {
        assert(path_parts(b)[0] == seq!['/']);
        assert(path_parts(a)[0] == path_parts(a).subrange(0, path_parts(b).len() as int)[0]);
        lemma_named_parts(pieces(a, '/'));
        crate::text::law_pieces(a, '/');
        let first = naming(pieces(a, '/'))[0];
        assert(pieces(a, '/').contains(first));
        assert(first[0] == '/');
        assert(first.contains('/'));
    }
}

proof fn lemma_named_parts(ps: Seq<Seq<char>>)
    ensures
        forall|i: int| 0 <= i < naming(ps).len() ==> ps.contains(#[trigger] naming(ps)[i]),
    decreases ps.len(),
{
    if ps.len() > 0 {
        let front = ps.drop_last();
        lemma_named_parts(front);
        assert forall|i: int| 0 <= i < naming(ps).len() implies ps.contains(
            #[trigger] naming(ps)[i],
        ) by {
            if i < naming(front).len() {
                let part = naming(front)[i];
                assert(naming(ps)[i] == part);
                let k = choose|k: int| 0 <= k < front.len() && front[k] == part;
                assert(ps[k] == part);
            } else {
                assert(ps[ps.len() - 1] == naming(ps)[i]);
            }
        }
    }
}

/// The extension of a file is what follows the last dot of its name, where something precedes that
/// dot.
pub proof fn law_extensions(stem: Seq<char>, extension: Seq<char>)
    requires
        stem.len() > 0,
        !stem.contains('/'),
        !extension.contains('/'),
        !extension.contains('.'),
        stem + seq!['.'] + extension != seq!['.', '.'],
    ensures
        file_extension(stem + seq!['.'] + extension) == Some(extension),
        file_stem_of(stem + seq!['.'] + extension) == Some(stem),
        extension.len() > 0 ==> file_extension(extension) is None,
{
    let name = stem + seq!['.'] + extension;
    lemma_last_index(stem, extension);
    assert(!name.contains('/')) by {
        if name.contains('/') {
            let i = choose|i: int| 0 <= i < name.len() && name[i] == '/';
            if i < stem.len() {
                assert(stem[i] == '/');
            } else if i > stem.len() {
                assert(extension[i - stem.len() - 1] == '/');
            }
        }
    }
    lemma_one_name(name);
    assert(name.skip(stem.len() as int + 1) =~= extension);
    assert(name.take(stem.len() as int) =~= stem);
    assert(name.len() != 1);
    if extension.len() > 0 {
        if extension == seq!['.'] {
            assert(extension[0] == '.');
        }
        lemma_one_name(extension);
        lemma_no_dot(extension);
    }
}

proof fn lemma_no_dot(s: Seq<char>)
    requires
        !s.contains('.'),
    ensures
        last_index(s, '.') == -1,
    decreases s.len(),
{
    if s.len() > 0 {
        assert(s.contains(s.last()));
        assert forall|i: int| 0 <= i < s.len() - 1 implies s.drop_last()[i] != '.' by {
            assert(s.contains(s[i]));
        }
        lemma_no_dot(s.drop_last());
    }
}

proof fn lemma_last_index(stem: Seq<char>, extension: Seq<char>)
    requires
        !extension.contains('.'),
    ensures
        last_index(stem + seq!['.'] + extension, '.') == stem.len(),
    decreases extension.len(),
{
    let name = stem + seq!['.'] + extension;
    if extension.len() > 0 {
        assert(extension.contains(extension.last()));
        assert(name.last() == extension.last());
        assert forall|i: int| 0 <= i < extension.len() - 1 implies extension.drop_last()[i]
            != '.' by {
            assert(extension.contains(extension[i]));
        }
        lemma_last_index(stem, extension.drop_last());
        assert(name.drop_last() =~= stem + seq!['.'] + extension.drop_last());
    } else {
        assert(name.last() == '.');
    }
}

proof fn lemma_one_name(name: Seq<char>)
    requires
        name.len() > 0,
        !name.contains('/'),
    ensures
        naming(pieces(name, '/')) == seq![name],
{
    let p = crate::text::not_char('/');
    assert forall|i: int| 0 <= i < name.len() implies p(#[trigger] name[i]) by {
        assert(name.contains(name[i]));
    }
    crate::text::lemma_run_is(name, p, name.len());
    assert(pieces(name, '/') =~= seq![name]);
    let ps = pieces(name, '/');
    assert(ps.drop_last() =~= Seq::empty());
    assert(naming(ps.drop_last()) =~= Seq::<Seq<char>>::empty());
    assert(naming(ps) =~= seq![name]);
}

} // verus!
