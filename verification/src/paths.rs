//! File paths as texts, with `/` between their parts.

use vstd::prelude::*;
use crate::text::{
    cat3, chars_of, find_char_back, last_pos, lemma_char_pos, lemma_filter_push, lemma_split_push, opt_view, same, slice_of, split, split_at_char, starts_with, views,
};
use crate::text::{lemma_filter_take, starts};

verus! {

/// The bytes that a text takes.
pub open spec fn byte_len(s: Seq<char>) -> nat {
    vstd::utf8::encode_utf8(s).len()
}

/// The bytes that a text takes.
pub fn byte_len_of(s: &str) -> (n: usize)
    ensures
        n == byte_len(s@),
{
    s.as_bytes().len()
}

/// The parts of a path that name something: empty parts and `.` are left out.
pub open spec fn parts(path: Seq<char>) -> Seq<Seq<char>> {
    split(path, |c: char| c == '/').filter(|t: Seq<char>| t.len() > 0 && t != "."@)
}

/// The last part of a path, unless there is none or it is `..`.
pub open spec fn file_name(path: Seq<char>) -> Option<Seq<char>> {
    let p = parts(path);
    if p.len() == 0 || p.last() == ".."@ {
        None
    } else {
        Some(p.last())
    }
}

/// A file name without its extension. A dot at the start begins no extension.
pub open spec fn stem(name: Seq<char>) -> Seq<char> {
    match last_pos(name, '.') {
        Some(i) => if i == 0 {
            name
        } else {
            name.take(i)
        },
        None => name,
    }
}

/// The extension of a file name.
pub open spec fn extension(name: Seq<char>) -> Option<Seq<char>> {
    match last_pos(name, '.') {
        Some(i) => if i == 0 {
            None
        } else {
            Some(name.skip(i + 1))
        },
        None => None,
    }
}

/// The file name of a path without its extension.
pub open spec fn file_stem(path: Seq<char>) -> Option<Seq<char>> {
    match file_name(path) {
        Some(n) => Some(stem(n)),
        None => None,
    }
}

/// `rest` below the directory `dir`; an absolute `rest` stands alone.
pub open spec fn join_path(dir: Seq<char>, rest: Seq<char>) -> Seq<char> {
    if starts(rest, "/"@) {
        rest
    } else if dir.len() == 0 || dir.last() == '/' {
        dir + rest
    } else {
        dir + "/"@ + rest
    }
}

/// The parts of a path that name something.
pub fn parts_of(path: &str) -> (r: Vec<String>)
    ensures
        views(r@) == parts(path@),
{
    let all = split_at_char(path, '/');
    let mut r: Vec<String> = Vec::new();
    let ghost p = |t: Seq<char>| t.len() > 0 && t != "."@;
    proof {
        assert((|x: char| x == '/') == (|c: char| c == '/'));
        reveal(Seq::filter);
        assert(views(all@).take(0).filter(p) == Seq::<Seq<char>>::empty());
    }
    for i in 0..all.len()
        invariant
            p == (|t: Seq<char>| t.len() > 0 && t != "."@),
            views(r@) == views(all@).take(i as int).filter(p),
    {
        let ghost before = views(r@);
        if !all[i].as_str().is_empty() && !same(all[i].as_str(), ".") {
            r.push(all[i].clone());
            assert(views(r@) == before.push(all@[i as int]@));
        }
        proof {
            lemma_filter_take(views(all@), p, i as int);
        }
    }
    assert(views(all@).take(all.len() as int) == views(all@));
    r
}

/// The last part of a path, unless there is none or it is `..`.
pub fn file_name_of(path: &str) -> (r: Option<String>)
    ensures
        opt_view(r) == file_name(path@),
{
    let p = parts_of(path);
    if p.len() == 0 {
        return None;
    }
    let last = p[p.len() - 1].clone();
    assert(views(p@).last() == last@);
    if same(last.as_str(), "..") {
        None
    } else {
        Some(last)
    }
}

/// A file name without its extension.
pub fn stem_of_name(name: &str) -> (r: String)
    ensures
        r@ == stem(name@),
{
    let v = chars_of(name);
    match find_char_back(&v, '.') {
        Some(i) => if i == 0 {
            name.to_owned()
        } else {
            let r = slice_of(&v, 0, i);
            assert(r@ == name@.take(i as int));
            r
        },
        None => name.to_owned(),
    }
}

/// The extension of a file name.
pub fn extension_of_name(name: &str) -> (r: Option<String>)
    ensures
        opt_view(r) == extension(name@),
{
    let v = chars_of(name);
    match find_char_back(&v, '.') {
        Some(i) => if i == 0 {
            None
        } else {
            let r = slice_of(&v, i + 1, v.len());
            assert(r@ == name@.skip(i + 1));
            Some(r)
        },
        None => None,
    }
}

/// The file name of a path without its extension.
pub fn file_stem_of(path: &str) -> (r: Option<String>)
    ensures
        opt_view(r) == file_stem(path@),
{
    match file_name_of(path) {
        Some(n) => Some(stem_of_name(n.as_str())),
        None => None,
    }
}

/// `rest` below the directory `dir`.
pub fn join_paths(dir: &str, rest: &str) -> (r: String)
    ensures
        r@ == join_path(dir@, rest@),
{
    if starts_with(rest, "/") {
        return rest.to_owned();
    }
    let v = chars_of(dir);
    if v.len() == 0 || v[v.len() - 1] == '/' {
        let r = cat3(dir, "", rest);
        proof {
            reveal_strlit("");
            assert(r@ == dir@ + rest@);
        }
        r
    } else {
        cat3(dir, "/", rest)
    }
}

// ---- laws ----

proof fn lemma_last_part(dir: Seq<char>, name: Seq<char>)
    requires
        !name.contains('/'),
        name.len() > 0,
        name != "."@,
    ensures
        parts(dir + "/"@ + name) == parts(dir).push(name),
{
    reveal_strlit("/");
    let slash = |c: char| c == '/';
    let named = |t: Seq<char>| t.len() > 0 && t != "."@;
    assert(dir + "/"@ + name == dir.push('/') + name);
    lemma_split_push(dir, '/', name, slash);
    lemma_filter_push(split(dir, slash), named, name);
}

/// What stands behind a directory's slash is the name of the file, and what stands behind the
/// last dot of that its extension; the rest of the name is its stem.
pub proof fn law_file_is_named(dir: Seq<char>, base: Seq<char>, ext: Seq<char>)
    requires
        base.len() > 0,
        !base.contains('/'),
        !ext.contains('/'),
        !ext.contains('.'),
    ensures
        base != "."@ && base != ".."@ ==> file_name(dir + "/"@ + base) == Some(base),
        base != "."@ ==> file_name(dir + "/"@ + base + "."@ + ext) == Some(base + "."@ + ext),
        base != "."@ ==> file_stem(dir + "/"@ + base + "."@ + ext) == Some(base),
        extension(base + "."@ + ext) == Some(ext),
        stem(base + "."@ + ext) == base,
{
    reveal_strlit(".");
    reveal_strlit("..");
    let full = base + "."@ + ext;
    assert(full[base.len() as int] == '.');
    lemma_char_pos(full, '.');
    assert forall|j: int| base.len() < j < full.len() implies full[j] != '.' by {
        assert(full[j] == ext[j - base.len() - 1]);
    }
    assert(full.take(base.len() as int) == base);
    assert(full.skip((base.len() + 1) as int) == ext);
    assert(!full.contains('/')) by {
        if full.contains('/') {
            let k = full.index_of('/');
            if k < base.len() {
                assert(base[k] == '/');
            } else if k > base.len() {
                assert(ext[k - base.len() - 1] == '/');
            }
        }
    }
    assert(full.len() >= 2);
    if base != "."@ {
        lemma_last_part(dir, base);
        lemma_last_part(dir, full);
        assert(dir + "/"@ + base + "."@ + ext == dir + "/"@ + full);
        assert(full != ".."@) by {
            if full == ".."@ {
                assert(base =~= "."@);
            }
        }
    }
}

/// A name without a dot, or with one at its start alone, is its own stem and has no extension.
pub proof fn law_bare_name(name: Seq<char>)
    requires
        forall|i: int| 0 < i < name.len() ==> name[i] != '.',
    ensures
        stem(name) == name,
        extension(name) is None,
{
    lemma_char_pos(name, '.');
}

/// A relative path joined to a directory stands below it, with one slash between; an absolute
/// one stands alone.
pub proof fn law_joined_below(dir: Seq<char>, rest: Seq<char>)
    ensures
        rest.len() > 0 && rest[0] == '/' ==> join_path(dir, rest) == rest,
        (rest.len() == 0 || rest[0] != '/') && dir.len() > 0 && dir.last() != '/' ==> join_path(dir, rest) == dir.push('/')
            + rest,
        (rest.len() == 0 || rest[0] != '/') && (dir.len() == 0 || dir.last() == '/') ==> join_path(dir, rest) == dir + rest,
{
    reveal_strlit("/");
    if rest.len() > 0 {
        assert(rest.subrange(0, 1) == seq![rest[0]]);
        assert(rest.subrange(0, 1)[0] == rest[0]);
    }
    assert("/"@ == seq!['/']);
    assert(dir + "/"@ + rest == dir.push('/') + rest);
}

} // verus!
