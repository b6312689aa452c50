//! The music library: what the library roots hold, and which tracks a query means.

use vstd::prelude::*;
use crate::config::{ConfigV, SirenConfig};
use crate::order::{
    in_order, law_sorted, lemma_sorted_map, name_key, name_sort_key, sort_items, sorted_by, KeyV, SortKey,
};
use crate::paths::{byte_len, byte_len_of, file_stem, file_stem_of, join_path, join_paths};
use crate::text::{
    after_prefix, all_ascii, alnum_pieces, alnum_pieces_of, blank, chars_of, contains, drop_empty, ends, ends_with, filled,
    find_at, find_from, has, holds, is_alnum, is_blank, join, joined, lemma_filter_take, lemma_filtered, lemma_find_first,
    list_has, lower, lowered, only_alnum, same, starts, starts_with, strip_prefix, trim, trimmed, views,
};

verus! {

/// The endings of audio files.
pub open spec fn audio_ext() -> Seq<Seq<char>> {
    seq![".mp3"@, ".flac"@, ".ogg"@, ".m4a"@, ".wav"@, ".opus"@, ".mp4"@, ".mkv"@, ".mka"@, ".aac"@]
}

/// Whether a path ends like an audio file, in any case.
pub open spec fn is_audio(path: Seq<char>) -> bool {
    exists|i: int| 0 <= i < audio_ext().len() && ends(lower(path), #[trigger] audio_ext()[i])
}

/// The endings of audio files.
fn audio_endings() -> (r: Vec<String>)
    ensures
        views(r@) == audio_ext(),
{
    let mut r: Vec<String> = Vec::new();
    r.push(".mp3".to_owned());
    r.push(".flac".to_owned());
    r.push(".ogg".to_owned());
    r.push(".m4a".to_owned());
    r.push(".wav".to_owned());
    r.push(".opus".to_owned());
    r.push(".mp4".to_owned());
    r.push(".mkv".to_owned());
    r.push(".mka".to_owned());
    r.push(".aac".to_owned());
    assert(views(r@) == audio_ext());
    r
}

/// Whether a path ends like an audio file, in any case.
pub fn is_audio_path(path: &str) -> (r: bool)
    ensures
        r == is_audio(path@),
{
    let low = lowered(path);
    let exts = audio_endings();
    for i in 0..exts.len()
        invariant
            views(exts@) == audio_ext(),
            low@ == lower(path@),
            forall|j: int| 0 <= j < i ==> !ends(low@, #[trigger] audio_ext()[j]),
    {
        assert(exts@[i as int]@ == views(exts@)[i as int]);
        if ends_with(low.as_str(), exts[i].as_str()) {
            return true;
        }
    }
    assert(exts.len() == views(exts@).len());
    false
}

/// A path with a leading `~/` put below the home directory.
pub open spec fn expanded(p: Seq<char>, home: Seq<char>) -> Seq<char> {
    match after_prefix(p, "~/"@) {
        Some(rest) => join_path(home, rest),
        None => p,
    }
}

/// A path with a leading `~/` put below the home directory.
pub fn expand_home(p: &str, home: &str) -> (r: String)
    ensures
        r@ == expanded(p@, home@),
{
    match strip_prefix(p, "~/") {
        Some(rest) => join_paths(home, rest.as_str()),
        None => p.to_owned(),
    }
}

/// The configured library roots, each expanded.
pub open spec fn roots_of(c: ConfigV, home: Seq<char>) -> Seq<Seq<char>> {
    Seq::new(c.library_roots.len(), |i: int| expanded(c.library_roots[i], home))
}

/// The configured library roots, each expanded.
pub fn library_roots(cfg: &SirenConfig, home: &str) -> (r: Vec<String>)
    ensures
        views(r@) == roots_of(cfg@, home@),
{
    let mut r: Vec<String> = Vec::new();
    for i in 0..cfg.library_roots.len()
        invariant
            r.len() == i,
            forall|j: int| 0 <= j < i ==> r@[j]@ == expanded(cfg.library_roots@[j]@, home@),
    {
        r.push(expand_home(cfg.library_roots[i].as_str(), home));
    }
    assert(views(r@) == roots_of(cfg@, home@));
    r
}

// ---- what stands on disk ----

/// What stands at a path. A directory holds its entries by name, in any order.
pub enum Node {
    File,
    Dir(Vec<(String, Node)>),
    Missing,
}

/// The model of a [`Node`].
#[verifier::ext_equal]
pub enum NodeV {
    File,
    Dir(Seq<(Seq<char>, NodeV)>),
    Missing,
}

/// The model of a node.
pub open spec fn node_model(n: Node) -> NodeV
    decreases n,
{
    match n {
        Node::File => NodeV::File,
        Node::Missing => NodeV::Missing,
        Node::Dir(es) => NodeV::Dir(
            Seq::new(
                es@.len(),
                |i: int|
                    if 0 <= i < es@.len() {
                        (es@[i].0@, node_model(es@[i].1))
                    } else {
                        (Seq::empty(), NodeV::Missing)
                    },
            ),
        ),
    }
}

impl View for Node {
    type V = NodeV;

    open spec fn view(&self) -> NodeV {
        node_model(*self)
    }
}

/// A library root and what stands there.
pub struct Root {
    pub path: String,
    pub node: Node,
}

/// The model of a [`Root`].
#[verifier::ext_equal]
pub struct RootV {
    pub path: Seq<char>,
    pub node: NodeV,
}

impl View for Root {
    type V = RootV;

    open spec fn view(&self) -> RootV {
        RootV { path: self.path@, node: self.node@ }
    }
}

/// The models of library roots.
pub open spec fn root_views(v: Seq<Root>) -> Seq<RootV> {
    Seq::new(v.len(), |i: int| v[i]@)
}

/// The second parts of a list of pairs, one behind the other.
pub open spec fn flat(groups: Seq<(Seq<char>, Seq<Seq<char>>)>) -> Seq<Seq<char>>
    decreases groups.len(),
{
    if groups.len() == 0 {
        Seq::empty()
    } else {
        flat(groups.drop_last()) + groups.last().1
    }
}

/// The key of a directory entry: its name.
pub open spec fn entry_key() -> spec_fn((Seq<char>, Seq<Seq<char>>)) -> KeyV {
    |e: (Seq<char>, Seq<Seq<char>>)| name_key(e.0)
}

/// The audio files at `path` and below it, the entries of each directory by name.
pub open spec fn visited(path: Seq<char>, n: NodeV) -> Seq<Seq<char>>
    decreases n,
{
    match n {
        NodeV::File => if is_audio(path) {
            seq![path]
        } else {
            Seq::empty()
        },
        NodeV::Missing => Seq::empty(),
        NodeV::Dir(es) => flat(sorted_by(entry_groups(path, es), entry_key())),
    }
}

/// The entries of a directory, each with the audio files at and below it.
pub open spec fn entry_groups(path: Seq<char>, es: Seq<(Seq<char>, NodeV)>) -> Seq<(Seq<char>, Seq<Seq<char>>)>
    decreases es,
{
    Seq::new(
        es.len(),
        |i: int|
            if 0 <= i < es.len() {
                (es[i].0, visited(join_path(path, es[i].0), es[i].1))
            } else {
                (Seq::empty(), Seq::empty())
            },
    )
}

spec fn group_views(v: Seq<(String, Vec<String>)>) -> Seq<(Seq<char>, Seq<Seq<char>>)> {
    v.map_values(|e: (String, Vec<String>)| (e.0@, views(e.1@)))
}

fn flatten(groups: Vec<(String, Vec<String>)>) -> (r: Vec<String>)
    ensures
        views(r@) == flat(group_views(groups@)),
{
    let mut r: Vec<String> = Vec::new();
    proof {
        assert(views(r@) == flat(group_views(groups@).take(0)));
    }
    for i in 0..groups.len()
        invariant
            views(r@) == flat(group_views(groups@).take(i as int)),
    {
        let ghost before = views(r@);
        let part = &groups[i].1;
        for k in 0..part.len()
            invariant
                views(r@) == before + views(part@).take(k as int),
        {
            let ghost prev = views(r@);
            r.push(part[k].clone());
            assert(views(r@) == prev.push(part@[k as int]@));
            assert(views(part@).take(k + 1) == views(part@).take(k as int).push(part@[k as int]@));
            assert(views(r@) == before + views(part@).take(k + 1));
        }
        proof {
            let g = group_views(groups@);
            assert(views(part@).take(part.len() as int) == views(part@));
            assert(g.take(i + 1).drop_last() == g.take(i as int));
            assert(g.take(i + 1).last() == g[i as int]);
        }
    }
    assert(group_views(groups@).take(groups.len() as int) == group_views(groups@));
    r
}

/// The audio files at `path` and below it.
pub fn visit(path: &str, node: &Node) -> (r: Vec<String>)
    ensures
        views(r@) == visited(path@, node@),
    decreases node,
{
    match node {
        Node::File => {
            let mut r: Vec<String> = Vec::new();
            if is_audio_path(path) {
                r.push(path.to_owned());
                assert(views(r@) == seq![path@]);
            } else {
                assert(views(r@) == Seq::<Seq<char>>::empty());
            }
            r
        },
        Node::Missing => {
            let r: Vec<String> = Vec::new();
            assert(views(r@) == Seq::<Seq<char>>::empty());
            r
        },
        Node::Dir(es) => {
            let mut groups: Vec<(String, Vec<String>)> = Vec::new();
            let mut keys: Vec<SortKey> = Vec::new();
            let ghost raw = |e: (String, Vec<String>)| name_key(e.0@);
            let mut i: usize = 0;
            while i < es.len()
                invariant
                    i <= es.len(),
                    groups.len() == i,
                    keys.len() == i,
                    node == Node::Dir(*es),
                    raw == (|e: (String, Vec<String>)| name_key(e.0@)),
                    forall|j: int| 0 <= j < i ==> (#[trigger] keys@[j])@ == raw(groups@[j]),
                    forall|j: int|
                        0 <= j < i ==> (#[trigger] groups@[j]).0@ == es@[j].0@ && views(groups@[j].1@) == visited(
                            join_path(path@, es@[j].0@),
                            es@[j].1@,
                        ),
                decreases es.len() - i,
            {
                let below = join_paths(path, es[i].0.as_str());
                assert(decreases_to!(node => node->Dir_0));
                assert(decreases_to!(node->Dir_0 => node->Dir_0@));
                assert(decreases_to!(node->Dir_0@ => node->Dir_0@[i as int]));
                assert(decreases_to!(node->Dir_0@[i as int] => node->Dir_0@[i as int].1));
                let files = visit(below.as_str(), &es[i].1);
                keys.push(name_sort_key(es[i].0.as_str()));
                groups.push((es[i].0.clone(), files));
                i = i + 1;
            }
            let ghost all = groups@;
            sort_items(&mut groups, keys, Ghost(raw));
            proof {
                let f = |e: (String, Vec<String>)| (e.0@, views(e.1@));
                lemma_sorted_map(all, f, raw, entry_key());
                assert(all.map_values(f) == entry_groups(path@, node@->Dir_0));
                assert(group_views(groups@) == sorted_by(all, raw).map_values(f));
            }
            flatten(groups)
        },
    }
}

// ---- the library ----

/// What a root adds: a file itself, whatever its ending; of a directory its audio files.
pub open spec fn under_root(r: RootV) -> Seq<Seq<char>> {
    match r.node {
        NodeV::File => seq![r.path],
        _ => visited(r.path, r.node),
    }
}

/// What the roots add, in their order.
pub open spec fn under_roots(roots: Seq<RootV>) -> Seq<Seq<char>>
    decreases roots.len(),
{
    if roots.len() == 0 {
        Seq::empty()
    } else {
        under_roots(roots.drop_last()) + under_root(roots.last())
    }
}

/// `s` with the first occurrence of each element only.
pub open spec fn uniq(s: Seq<Seq<char>>) -> Seq<Seq<char>>
    decreases s.len(),
{
    if s.len() == 0 {
        s
    } else {
        let front = uniq(s.drop_last());
        if holds(front, s.last()) {
            front
        } else {
            front.push(s.last())
        }
    }
}

/// The key by which the library is ordered: the path in lower case.
pub open spec fn path_key() -> spec_fn(Seq<char>) -> KeyV {
    |p: Seq<char>| name_key(lower(p))
}

/// The tracks of the library, each once, by path in lower case.
pub open spec fn library_of(roots: Seq<RootV>) -> Seq<Seq<char>> {
    sorted_by(uniq(under_roots(roots)), path_key())
}

fn add_new(files: &mut Vec<String>, more: Vec<String>, Ghost(seen): Ghost<Seq<Seq<char>>>)
    requires
        views(old(files)@) == uniq(seen),
    ensures
        views(final(files)@) == uniq(seen + views(more@)),
{
    assert(seen + views(more@).take(0) == seen);
    for i in 0..more.len()
        invariant
            views(files@) == uniq(seen + views(more@).take(i as int)),
    {
        proof {
            let next = seen + views(more@).take(i + 1);
            assert(next.drop_last() == seen + views(more@).take(i as int));
            assert(next.last() == more@[i as int]@);
        }
        let ghost before = views(files@);
        if !list_has(&*files, more[i].as_str()) {
            files.push(more[i].clone());
            assert(views(files@) == before.push(more@[i as int]@));
        }
    }
    assert(views(more@).take(more.len() as int) == views(more@));
}

fn sort_paths(files: &mut Vec<String>)
    ensures
        views(final(files)@) == sorted_by(views(old(files)@), path_key()),
{
    let mut keys: Vec<SortKey> = Vec::new();
    let ghost raw = |s: String| name_key(lower(s@));
    for i in 0..files.len()
        invariant
            keys.len() == i,
            raw == (|s: String| name_key(lower(s@))),
            forall|j: int| 0 <= j < i ==> (#[trigger] keys@[j])@ == raw(files@[j]),
    {
        keys.push(name_sort_key(lowered(files[i].as_str()).as_str()));
    }
    let ghost all = files@;
    sort_items(files, keys, Ghost(raw));
    proof {
        let f = |s: String| s@;
        lemma_sorted_map(all, f, raw, path_key());
        assert(all.map_values(f) == views(all));
        assert(sorted_by(all, raw).map_values(f) == views(sorted_by(all, raw)));
    }
}

/// Walks every root, drops what came before already, and orders the rest by path in
/// lower case.
pub fn scan_library(roots: &Vec<Root>) -> (r: Vec<String>)
    ensures
        views(r@) == library_of(root_views(roots@)),
{
    let mut files: Vec<String> = Vec::new();
    proof {
        assert(views(files@) == uniq(under_roots(root_views(roots@).take(0))));
    }
    for i in 0..roots.len()
        invariant
            views(files@) == uniq(under_roots(root_views(roots@).take(i as int))),
    {
        let root = &roots[i];
        let local = match &root.node {
            Node::File => {
                let mut one: Vec<String> = Vec::new();
                one.push(root.path.clone());
                assert(views(one@) == seq![root.path@]);
                one
            },
            _ => visit(root.path.as_str(), &root.node),
        };
        proof {
            let v = root_views(roots@);
            assert(v.take(i + 1).drop_last() == v.take(i as int));
            assert(v.take(i + 1).last() == root@);
            assert(views(local@) == under_root(root@));
        }
        add_new(&mut files, local, Ghost(under_roots(root_views(roots@).take(i as int))));
    }
    proof {
        assert(root_views(roots@).take(roots.len() as int) == root_views(roots@));
    }
    sort_paths(&mut files);
    files
}

// ---- matching ----

/// The alphanumeric runs of a text in lower case.
pub open spec fn token_list(s: Seq<char>) -> Seq<Seq<char>> {
    filled(alnum_pieces(lower(s)))
}

/// The alphanumeric runs of a text in lower case.
pub fn tokens(s: &str) -> (r: Vec<String>)
    ensures
        views(r@) == token_list(s@),
{
    drop_empty(alnum_pieces_of(lowered(s).as_str()))
}

/// Every token of `qt` is one of `tt`.
pub open spec fn all_among(qt: Seq<Seq<char>>, tt: Seq<Seq<char>>) -> bool {
    forall|i: int| 0 <= i < qt.len() ==> holds(tt, #[trigger] qt[i])
}

/// The bytes of all tokens together.
pub open spec fn total_bytes(v: Seq<Seq<char>>) -> nat
    decreases v.len(),
{
    if v.len() == 0 {
        0
    } else {
        total_bytes(v.drop_last()) + byte_len(v.last())
    }
}

/// How far the first `n` tokens are found one behind the other in `s`: whether all of
/// them were, where the search stands, and the bytes of those found.
pub open spec fn walk(s: Seq<char>, qt: Seq<Seq<char>>, n: nat) -> (bool, int, nat)
    decreases n,
{
    if n == 0 {
        (true, 0, 0)
    } else {
        let (going, pos, sum) = walk(s, qt, (n - 1) as nat);
        if !going {
            (false, pos, sum)
        } else {
            match find_from(s, qt[n - 1], pos) {
                Some(i) => (true, i + qt[n - 1].len(), sum + byte_len(qt[n - 1])),
                None => (false, pos, sum),
            }
        }
    }
}

/// How well a text matches a query, as tier and bonus: 10 equal, 9 a prefix, 8 contained,
/// 7 every token, 6 the tokens one behind the other in what is left without gaps; tier 0 is
/// no match. The bonus counts the bytes that matched, as a 32-bit number.
pub open spec fn score(query: Seq<char>, text: Seq<char>) -> (i32, i32) {
    let q = lower(trim(query));
    let t = lower(text);
    let qt = token_list(q);
    let tt = token_list(t);
    if q.len() == 0 {
        (0, 0)
    } else if q == t {
        (10, byte_len(q) as i32)
    } else if starts(t, q) {
        (9, byte_len(q) as i32)
    } else if has(t, q) {
        (8, byte_len(q) as i32)
    } else if qt.len() == 0 {
        (0, 0)
    } else if all_among(qt, tt) {
        (7, total_bytes(qt) as i32)
    } else {
        let (all, _, sum) = walk(join(tt, ""@), qt, qt.len());
        if all && sum as i32 > 0 {
            (6, sum as i32)
        } else {
            (0, 0)
        }
    }
}

fn among(qt: &Vec<String>, tt: &Vec<String>) -> (r: bool)
    ensures
        r == all_among(views(qt@), views(tt@)),
{
    for i in 0..qt.len()
        invariant
            forall|j: int| 0 <= j < i ==> holds(views(tt@), #[trigger] views(qt@)[j]),
    {
        if !list_has(tt, qt[i].as_str()) {
            assert(!holds(views(tt@), views(qt@)[i as int]));
            return false;
        }
    }
    true
}

fn bytes_of(v: &Vec<String>) -> (n: u128)
    ensures
        n == total_bytes(views(v@)),
{
    let mut n: u128 = 0;
    assert(views(v@).take(0) == Seq::<Seq<char>>::empty());
    for i in 0..v.len()
        invariant
            n == total_bytes(views(v@).take(i as int)),
            n <= i * 0xffff_ffff_ffff_ffff,
    {
        proof {
            assert(views(v@).take(i + 1).drop_last() == views(v@).take(i as int));
            assert(views(v@).take(i + 1).last() == v@[i as int]@);
        }
        n = n + byte_len_of(v[i].as_str()) as u128;
    }
    assert(views(v@).take(v.len() as int) == views(v@));
    n
}

proof fn lemma_walk_stops(s: Seq<char>, qt: Seq<Seq<char>>, m: nat, n: nat)
    requires
        m <= n,
        !walk(s, qt, m).0,
    ensures
        walk(s, qt, n) == walk(s, qt, m),
    decreases n,
{
    if m < n {
        lemma_walk_stops(s, qt, m, (n - 1) as nat);
    }
}

fn walked(s: &str, qt: &Vec<String>) -> (r: Option<u128>)
    ensures
        match r {
            Some(n) => walk(s@, views(qt@), qt@.len()).0 && n == walk(s@, views(qt@), qt@.len()).2,
            None => !walk(s@, views(qt@), qt@.len()).0,
        },
{
    let v = chars_of(s);
    let mut pos: usize = 0;
    let mut sum: u128 = 0;
    for i in 0..qt.len()
        invariant
            v@ == s@,
            walk(s@, views(qt@), i as nat) == (true, pos as int, sum as nat),
            pos <= v.len(),
            sum <= i * 0xffff_ffff_ffff_ffff,
    {
        let tok = chars_of(qt[i].as_str());
        proof {
            lemma_find_first(v@, tok@, pos as int);
            assert(views(qt@)[i as int] == tok@);
        }
        match find_at(&v, &tok, pos) {
            Some(j) => {
                pos = j + tok.len();
                sum = sum + byte_len_of(qt[i].as_str()) as u128;
            },
            None => {
                proof {
                    lemma_walk_stops(s@, views(qt@), (i + 1) as nat, qt@.len());
                }
                return None;
            },
        }
    }
    Some(sum)
}

/// How well a text matches a query: (tier, bonus); (0, 0) is no match.
pub fn fuzzy_score(query: &str, text: &str) -> (r: (i32, i32))
    ensures
        r == score(query@, text@),
{
    let q = lowered(trimmed(query).as_str());
    let t = lowered(text);
    if q.as_str().is_empty() {
        return (0, 0);
    }
    let n: usize = byte_len_of(q.as_str());
    if same(q.as_str(), t.as_str()) {
        return (10, n as i32);
    }
    if starts_with(t.as_str(), q.as_str()) {
        return (9, n as i32);
    }
    if contains(t.as_str(), q.as_str()) {
        return (8, n as i32);
    }
    let qt = tokens(q.as_str());
    let tt = tokens(t.as_str());
    assert(views(qt@).len() == qt.len());
    if qt.len() == 0 {
        return (0, 0);
    }
    if among(&qt, &tt) {
        return (7, bytes_of(&qt) as i32);
    }
    match walked(joined(&tt, "").as_str(), &qt) {
        Some(n) => {
            let matched: i32 = n as i32;
            if matched > 0 {
                return (6, matched);
            }
        },
        None => {},
    }
    (0, 0)
}

// ---- resolving ----

/// The file stem of a path, empty where it has none.
pub open spec fn stem_or_empty(p: Seq<char>) -> Seq<char> {
    match file_stem(p) {
        Some(s) => s,
        None => Seq::empty(),
    }
}

fn stem_of(p: &str) -> (r: String)
    ensures
        r@ == stem_or_empty(p@),
{
    match file_stem_of(p) {
        Some(s) => s,
        None => {
            let s = String::new();
            assert(s@ == Seq::<char>::empty());
            s
        },
    }
}

/// The better of the scores of a path and of its stem.
pub open spec fn best_score(query: Seq<char>, path: Seq<char>) -> (i32, i32) {
    let a = score(query, path);
    let b = score(query, stem_or_empty(path));
    if b.0 > a.0 || (b.0 == a.0 && b.1 > a.1) {
        b
    } else {
        a
    }
}

fn best_of(query: &str, path: &str) -> (r: (i32, i32))
    ensures
        r == best_score(query@, path@),
{
    let a = fuzzy_score(query, path);
    let b = fuzzy_score(query, stem_of(path).as_str());
    if b.0 > a.0 || (b.0 == a.0 && b.1 > a.1) {
        b
    } else {
        a
    }
}

/// The key by which matches are ordered: the better score first, then the path in lower
/// case.
pub open spec fn rank_key(query: Seq<char>) -> spec_fn(Seq<char>) -> KeyV {
    |p: Seq<char>|
        KeyV { first: -best_score(query, p).0, second: -best_score(query, p).1, name: lower(p) }
}

/// Whether a path matches a query at all.
pub open spec fn matching(query: Seq<char>) -> spec_fn(Seq<char>) -> bool {
    |p: Seq<char>| best_score(query, p).0 > 0
}

/// The tracks of `lib` that a query means, the best match first. A blank query means the
/// whole library.
pub open spec fn resolved(lib: Seq<Seq<char>>, query: Seq<char>) -> Seq<Seq<char>> {
    if blank(query) {
        lib
    } else {
        sorted_by(lib.filter(matching(query)), rank_key(query))
    }
}

fn resolve_in(lib: Vec<String>, query: &str) -> (r: Vec<String>)
    ensures
        views(r@) == resolved(views(lib@), query@),
{
    if is_blank(query) {
        return lib;
    }
    let mut found: Vec<String> = Vec::new();
    let mut keys: Vec<SortKey> = Vec::new();
    let ghost raw = |s: String| (rank_key(query@))(s@);
    let ghost p = matching(query@);
    proof {
        reveal(Seq::filter);
        assert(views(lib@).take(0).filter(p) == Seq::<Seq<char>>::empty());
    }
    for i in 0..lib.len()
        invariant
            keys.len() == found.len(),
            p == matching(query@),
            raw == (|s: String| (rank_key(query@))(s@)),
            views(found@) == views(lib@).take(i as int).filter(p),
            forall|j: int| 0 <= j < found.len() ==> (#[trigger] keys@[j])@ == raw(found@[j]),
    {
        let best = best_of(query, lib[i].as_str());
        let ghost before = views(found@);
        if best.0 > 0 {
            let name = chars_of(lowered(lib[i].as_str()).as_str());
            keys.push(SortKey { first: -(best.0 as i64), second: -(best.1 as i64), name });
            found.push(lib[i].clone());
            assert(found@.last()@ == lib@[i as int]@);
            assert(views(found@) == before.push(lib@[i as int]@));
        }
        proof {
            lemma_filter_take(views(lib@), p, i as int);
        }
    }
    assert(views(lib@).take(lib.len() as int) == views(lib@));
    let ghost all = found@;
    sort_items(&mut found, keys, Ghost(raw));
    proof {
        let f = |s: String| s@;
        lemma_sorted_map(all, f, raw, rank_key(query@));
        assert(all.map_values(f) == views(all));
        assert(sorted_by(all, raw).map_values(f) == views(sorted_by(all, raw)));
    }
    found
}

/// The tracks of the library that a query means, the best match first.
pub fn resolve_library(roots: &Vec<Root>, query: &str) -> (r: Vec<String>)
    ensures
        views(r@) == resolved(library_of(root_views(roots@)), query@),
{
    resolve_in(scan_library(roots), query)
}

/// What play arguments mean: without any the whole library; a single one that names an
/// existing audio file means that file; otherwise they are a query.
pub open spec fn play_args(
    lib: Seq<Seq<char>>,
    targets: Seq<Seq<char>>,
    home: Seq<char>,
    single_is_file: bool,
) -> Seq<Seq<char>> {
    if targets.len() == 0 {
        lib
    } else if targets.len() == 1 && single_is_file && is_audio(expanded(targets[0], home)) {
        seq![expanded(targets[0], home)]
    } else {
        resolved(lib, join(targets, " "@))
    }
}

/// What play arguments mean. `single_is_file` says whether a single target, with `~/`
/// expanded, is a file.
pub fn resolve_play_args(roots: &Vec<Root>, targets: &Vec<String>, home: &str, single_is_file: bool) -> (r: Vec<String>)
    ensures
        views(r@) == play_args(library_of(root_views(roots@)), views(targets@), home@, single_is_file),
{
    if targets.len() == 0 {
        return scan_library(roots);
    }
    if targets.len() == 1 && single_is_file {
        let p = expand_home(targets[0].as_str(), home);
        if is_audio_path(p.as_str()) {
            let mut one: Vec<String> = Vec::new();
            one.push(p);
            assert(views(one@) == seq![p@]);
            return one;
        }
    }
    resolve_library(roots, joined(targets, " ").as_str())
}

// ---- laws ----

proof fn lemma_uniq(s: Seq<Seq<char>>)
    ensures
        uniq(s).no_duplicates(),
        forall|x: Seq<char>| uniq(s).contains(x) <==> s.contains(x),
    decreases s.len(),
{
    if s.len() > 0 {
        let t = s.drop_last();
        lemma_uniq(t);
        let front = uniq(t);
        assert forall|x: Seq<char>| s.contains(x) <==> (t.contains(x) || x == s.last()) by {
            if s.contains(x) {
                let i = s.index_of(x);
                if i < s.len() - 1 {
                    assert(t[i] == x);
                }
            }
            if t.contains(x) {
                let i = t.index_of(x);
                assert(s[i] == x);
            }
            assert(s[s.len() - 1] == s.last());
        }
        assert(holds(front, s.last()) <==> front.contains(s.last()));
        if !holds(front, s.last()) {
            let u = front.push(s.last());
            assert forall|x: Seq<char>| u.contains(x) <==> (front.contains(x) || x == s.last()) by {
                if front.contains(x) {
                    let i = front.index_of(x);
                    assert(u[i] == x);
                }
                assert(u[u.len() - 1] == s.last());
            }
        }
    }
}

/// The library holds every track once, holds exactly what its roots hold, and is in the
/// order of the paths in lower case.
pub proof fn law_library(roots: Seq<RootV>)
    ensures
        library_of(roots).no_duplicates(),
        forall|p: Seq<char>| library_of(roots).contains(p) <==> under_roots(roots).contains(p),
        in_order(library_of(roots), path_key()),
{
    let all = under_roots(roots);
    lemma_uniq(all);
    law_sorted(uniq(all), path_key());
    lemma_same_elements(library_of(roots), uniq(all));
}

proof fn lemma_same_elements(a: Seq<Seq<char>>, b: Seq<Seq<char>>)
    requires
        a.to_multiset() == b.to_multiset(),
        b.no_duplicates(),
    ensures
        a.no_duplicates(),
        forall|p: Seq<char>| a.contains(p) <==> b.contains(p),
{
    broadcast use vstd::seq_lib::group_to_multiset_ensures;

    assert forall|p: Seq<char>| a.contains(p) <==> b.contains(p) by {
        assert(a.contains(p) <==> a.to_multiset().count(p) > 0);
        assert(b.contains(p) <==> b.to_multiset().count(p) > 0);
    }
    b.lemma_multiset_has_no_duplicates();
    a.lemma_multiset_has_no_duplicates_conv();
}

/// A query that is not blank finds exactly the tracks that match it, each once, and a
/// better match stands before a worse one.
pub proof fn law_resolved(lib: Seq<Seq<char>>, query: Seq<char>)
    requires
        lib.no_duplicates(),
        !blank(query),
    ensures
        resolved(lib, query).no_duplicates(),
        forall|p: Seq<char>| resolved(lib, query).contains(p) <==> lib.contains(p) && best_score(query, p).0 > 0,
        in_order(resolved(lib, query), rank_key(query)),
{
    let m = matching(query);
    let found = lib.filter(m);
    law_sorted(found, rank_key(query));
    lemma_filtered(lib, m);
    lemma_same_elements(resolved(lib, query), found);
}

/// A text equal to the query, case aside, scores in the top tier, and no text scores above
/// it.
pub proof fn law_equal_scores_best(query: Seq<char>, text: Seq<char>)
    ensures
        score(query, text).0 <= 10,
        lower(trim(query)).len() > 0 && lower(trim(query)) == lower(text) ==> score(query, text).0 == 10,
{
}

/// A blank query matches no text.
pub proof fn law_blank_matches_nothing(query: Seq<char>, text: Seq<char>)
    requires
        lower(trim(query)).len() == 0,
    ensures
        score(query, text) == (0i32, 0i32),
{
}

/// A track is found where the query stands in its path or in its file stem, white space around it
/// and case aside; more generally wherever one of the two scores at all. It ranks by the better of
/// the two scores, and by nothing else.
pub proof fn law_path_or_stem_is_found(lib: Seq<Seq<char>>, query: Seq<char>, path: Seq<char>)
    requires
        lib.no_duplicates(),
        lib.contains(path),
        !blank(query),
        all_ascii(trim(query)) || lower(trim(query)).len() > 0,
    ensures
        has(lower(path), lower(trim(query))) ==> resolved(lib, query).contains(path),
        file_stem(path) is Some && has(lower(file_stem(path)->0), lower(trim(query))) ==> resolved(lib, query).contains(path),
        score(query, path).0 > 0 ==> resolved(lib, query).contains(path),
        file_stem(path) is Some && score(query, file_stem(path)->0).0 > 0 ==> resolved(lib, query).contains(path),
        best_score(query, path).0 >= score(query, path).0,
        file_stem(path) is Some ==> best_score(query, path).0 >= score(query, file_stem(path)->0).0,
        best_score(query, path) == score(query, path) || best_score(query, path) == score(query, stem_or_empty(path)),
        best_score(query, path).0 == score(query, path).0 ==> best_score(query, path).1 >= score(query, path).1,
        file_stem(path) is Some && best_score(query, path).0 == score(query, file_stem(path)->0).0 ==> best_score(
            query,
            path,
        ).1 >= score(query, file_stem(path)->0).1,
{
    law_resolved(lib, query);
    assert(lower(trim(query)).len() > 0) by {
        if all_ascii(trim(query)) {
            assert(lower(trim(query)).len() == trim(query).len());
        }
    }
}

/// What the tiers of a score mean: ten that the text is the query, nine that it begins with it,
/// eight that it holds it, seven that it holds every word of it, six that it holds the words one
/// behind the other when the gaps are taken out. Within the first three the longer query counts
/// more.
pub proof fn law_tiers(query: Seq<char>, text: Seq<char>)
    requires
        lower(trim(query)).len() > 0,
    ensures
        ({
            let q = lower(trim(query));
            let t = lower(text);
            let qt = token_list(q);
            let tt = token_list(t);
            let s = score(query, text);
            &&& s.0 == 0 || 6 <= s.0 <= 10
            &&& s.0 >= 10 <==> q == t
            &&& s.0 >= 9 <==> starts(t, q)
            &&& s.0 >= 8 <==> has(t, q)
            &&& s.0 >= 7 <==> has(t, q) || (qt.len() > 0 && forall|i: int|
                0 <= i < qt.len() ==> exists|j: int| 0 <= j < tt.len() && #[trigger] tt[j] == #[trigger] qt[i])
            &&& s.0 > 0 ==> s.0 >= 7 || (qt.len() > 0 && exists|pos: Seq<int>| in_turn(join(tt, ""@), qt, pos))
            &&& s.0 >= 8 ==> s.1 == byte_len(q) as i32
            &&& (qt.len() > 0 && exists|pos: Seq<int>| in_turn(join(tt, ""@), qt, pos)) && 0 < total_bytes(qt) <= i32::MAX
                ==> s.0 > 0
        }),
{
    let q = lower(trim(query));
    let t = lower(text);
    let qt = token_list(q);
    let tt = token_list(t);
    assert(starts(t, q) ==> has(t, q));
    if q == t {
        assert(t.subrange(0, q.len() as int) =~= q);
    }
    if all_among(qt, tt) {
        assert forall|i: int| 0 <= i < qt.len() implies exists|j: int| 0 <= j < tt.len() && #[trigger] tt[j]
            == #[trigger] qt[i] by {
            assert(holds(tt, qt[i]));
        }
    } else {
        let i = choose|i: int| 0 <= i < qt.len() && !holds(tt, #[trigger] qt[i]);
        assert(forall|j: int| 0 <= j < tt.len() ==> tt[j] != qt[i]);
    }
    let s = join(tt, ""@);
    lemma_walk_finds(s, qt, qt.len());
    lemma_walk_sums(s, qt, qt.len());
    assert(qt.take(qt.len() as int) == qt);
    if exists|pos: Seq<int>| in_turn(s, qt, pos) {
        let pos = choose|pos: Seq<int>| in_turn(s, qt, pos);
        lemma_walk_goes(s, qt, pos, qt.len());
    }
}

/// The texts `qt` stand in `s` at the positions `pos`, each behind the end of the one before it.
pub open spec fn in_turn(s: Seq<char>, qt: Seq<Seq<char>>, pos: Seq<int>) -> bool {
    &&& pos.len() == qt.len()
    &&& forall|i: int| 0 <= i < pos.len() ==> crate::text::at(s, qt[i], #[trigger] pos[i])
    &&& forall|i: int, j: int| 0 <= i < j < pos.len() ==> #[trigger] pos[i] + qt[i].len() <= #[trigger] pos[j]
}

proof fn lemma_walk_finds(s: Seq<char>, qt: Seq<Seq<char>>, n: nat)
    requires
        n <= qt.len(),
    ensures
        walk(s, qt, n).1 >= 0,
        walk(s, qt, n).0 ==> exists|pos: Seq<int>| in_turn(s, qt.take(n as int), pos) && (n > 0 ==> pos[n - 1] + qt[n
            - 1].len() == walk(s, qt, n).1),
    decreases n,
{
    if n == 0 {
        assert(in_turn(s, qt.take(0), Seq::<int>::empty()));
    } else {
        let m = (n - 1) as nat;
        lemma_walk_finds(s, qt, m);
        if walk(s, qt, m).0 {
            lemma_find_first(s, qt[n - 1], walk(s, qt, m).1);
        }
        if walk(s, qt, n).0 {
            let pos = choose|pos: Seq<int>|
                in_turn(s, qt.take(m as int), pos) && (m > 0 ==> pos[m - 1] + qt[m - 1].len() == walk(s, qt, m).1);
            let i = find_from(s, qt[n - 1], walk(s, qt, m).1)->0;
            let more = pos.push(i);
            let qn = qt.take(n as int);
            assert forall|k: int| 0 <= k < more.len() implies crate::text::at(s, qn[k], #[trigger] more[k]) by {
                if k < m {
                    assert(more[k] == pos[k]);
                    assert(qn[k] == qt.take(m as int)[k]);
                }
            }
            assert forall|k: int, l: int| 0 <= k < l < more.len() implies #[trigger] more[k] + qn[k].len() <= #[trigger] more[l] by {
                assert(more[k] == pos[k]);
                assert(qn[k] == qt.take(m as int)[k]);
                if l < m {
                    assert(more[l] == pos[l]);
                } else if k < m - 1 {
                    assert(pos[k] + qt.take(m as int)[k].len() <= pos[m - 1]);
                }
            }
            assert(in_turn(s, qn, more));
        }
    }
}

proof fn lemma_walk_goes(s: Seq<char>, qt: Seq<Seq<char>>, pos: Seq<int>, n: nat)
    requires
        n <= qt.len(),
        in_turn(s, qt, pos),
    ensures
        walk(s, qt, n).0,
        n > 0 ==> walk(s, qt, n).1 <= pos[n - 1] + qt[n - 1].len(),
        walk(s, qt, n).1 >= 0,
        n == 0 ==> walk(s, qt, n).1 == 0,
    decreases n,
{
    if n > 0 {
        let m = (n - 1) as nat;
        lemma_walk_goes(s, qt, pos, m);
        let from = walk(s, qt, m).1;
        lemma_find_first(s, qt[n - 1], from);
        assert(crate::text::at(s, qt[n - 1], pos[n - 1]));
        if m > 0 {
            assert(pos[m - 1] + qt[m - 1].len() <= pos[n - 1]);
        }
        assert(from <= pos[n - 1]);
    }
}

proof fn lemma_walk_sums(s: Seq<char>, qt: Seq<Seq<char>>, n: nat)
    requires
        n <= qt.len(),
    ensures
        walk(s, qt, n).0 ==> walk(s, qt, n).2 == total_bytes(qt.take(n as int)),
    decreases n,
{
    if n > 0 {
        lemma_walk_sums(s, qt, (n - 1) as nat);
        assert(qt.take(n as int).drop_last() == qt.take(n - 1));
        assert(qt.take(n as int).last() == qt[n - 1]);
    }
}

/// The words of a text are not empty, are made of letters and digits, and hold all of these that
/// the text has, in lower case and in their order.
pub proof fn law_words_of_a_text(s: Seq<char>)
    ensures
        join(token_list(s), ""@) == only_alnum(lower(s)),
        forall|i: int|
            0 <= i < token_list(s).len() ==> (#[trigger] token_list(s)[i]).len() > 0 && forall|k: int|
                0 <= k < token_list(s)[i].len() ==> is_alnum(token_list(s)[i][k]),
{
    let lo = lower(s);
    lemma_pieces(lo);
    let all = alnum_pieces(lo);
    let full = |t: Seq<char>| t.len() > 0;
    lemma_join_filled(all);
    lemma_filtered(all, full);
    assert forall|i: int| 0 <= i < token_list(s).len() implies (#[trigger] token_list(s)[i]).len() > 0 && forall|k: int|
        0 <= k < token_list(s)[i].len() ==> is_alnum(token_list(s)[i][k]) by {
        let w = token_list(s)[i];
        assert(filled(all).contains(w));
        let j = all.index_of(w);
        assert(all[j] == w);
    }
}

proof fn lemma_join_push(a: Seq<Seq<char>>, x: Seq<char>)
    ensures
        join(a.push(x), ""@) == join(a, ""@) + x,
{
    reveal_strlit("");
    assert(a.push(x).drop_last() == a);
    if a.len() == 0 {
        assert(join(a, ""@) + x == x);
    } else {
        assert(join(a, ""@) + ""@ + x == join(a, ""@) + x);
    }
}

proof fn lemma_join_filled(a: Seq<Seq<char>>)
    ensures
        join(filled(a), ""@) == join(a, ""@),
    decreases a.len(),
{
    reveal(Seq::filter);
    if a.len() > 0 {
        let f = a.drop_last();
        lemma_join_filled(f);
        assert(f.push(a.last()) == a);
        lemma_join_push(f, a.last());
        if a.last().len() > 0 {
            lemma_join_push(filled(f), a.last());
        } else {
            assert(join(f, ""@) + a.last() == join(f, ""@));
        }
    }
}

proof fn lemma_pieces(s: Seq<char>)
    ensures
        join(alnum_pieces(s), ""@) == only_alnum(s),
        forall|i: int|
            0 <= i < alnum_pieces(s).len() ==> forall|k: int|
                0 <= k < (#[trigger] alnum_pieces(s)[i]).len() ==> is_alnum(alnum_pieces(s)[i][k]),
    decreases s.len(),
{
    reveal(Seq::filter);
    let cut = |c: char| !is_alnum(c);
    if s.len() > 0 {
        let f = s.drop_last();
        lemma_pieces(f);
        crate::text::lemma_split_some(f, cut);
        let front = alnum_pieces(f);
        let c = s.last();
        let head = front.drop_last();
        assert(head.push(front.last()) == front);
        lemma_join_push(head, front.last());
        if cut(c) {
            lemma_join_push(front, Seq::empty());
            assert(join(front, ""@) + Seq::<char>::empty() == join(front, ""@));
            assert forall|i: int| 0 <= i < alnum_pieces(s).len() implies forall|k: int|
                0 <= k < (#[trigger] alnum_pieces(s)[i]).len() ==> is_alnum(alnum_pieces(s)[i][k]) by {
                if i < front.len() {
                    assert(alnum_pieces(s)[i] == front[i]);
                }
            }
        } else {
            lemma_join_push(head, front.last().push(c));
            assert(alnum_pieces(s) == head.push(front.last().push(c)));
            assert(join(head, ""@) + front.last().push(c) == (join(head, ""@) + front.last()).push(c));
            assert forall|i: int| 0 <= i < alnum_pieces(s).len() implies forall|k: int|
                0 <= k < (#[trigger] alnum_pieces(s)[i]).len() ==> is_alnum(alnum_pieces(s)[i][k]) by {
                assert forall|k: int| 0 <= k < alnum_pieces(s)[i].len() implies is_alnum(alnum_pieces(s)[i][k]) by {
                    if i < head.len() {
                        assert(alnum_pieces(s)[i] == front[i]);
                        assert(is_alnum(front[i][k]));
                    } else if k < front.last().len() {
                        assert(is_alnum(front[front.len() - 1][k]));
                    }
                }
            }
        }
    } else {
        assert(alnum_pieces(s) =~= seq![Seq::<char>::empty()]);
    }
}

/// Which files are audio files: by their endings, in any case.
pub proof fn law_audio_endings(path: Seq<char>)
    ensures
        ({
            let lo = lower(path);
            is_audio(path) <==> ends(lo, ".mp3"@) || ends(lo, ".flac"@) || ends(lo, ".ogg"@) || ends(lo, ".m4a"@) || ends(
                lo,
                ".wav"@,
            ) || ends(lo, ".opus"@) || ends(lo, ".mp4"@) || ends(lo, ".mkv"@) || ends(lo, ".mka"@) || ends(lo, ".aac"@)
        }),
{
    let e = audio_ext();
    assert(e[0] == ".mp3"@ && e[1] == ".flac"@ && e[2] == ".ogg"@ && e[3] == ".m4a"@ && e[4] == ".wav"@);
    assert(e[5] == ".opus"@ && e[6] == ".mp4"@ && e[7] == ".mkv"@ && e[8] == ".mka"@ && e[9] == ".aac"@);
}

proof fn lemma_flat(groups: Seq<(Seq<char>, Seq<Seq<char>>)>, p: Seq<char>)
    ensures
        flat(groups).contains(p) <==> exists|i: int| 0 <= i < groups.len() && (#[trigger] groups[i]).1.contains(p),
    decreases groups.len(),
{
    if groups.len() > 0 {
        let f = groups.drop_last();
        lemma_flat(f, p);
        let n = groups.len() - 1;
        let a = flat(f);
        let b = groups.last().1;
        assert((a + b).contains(p) <==> a.contains(p) || b.contains(p)) by {
            if a.contains(p) {
                assert((a + b)[a.index_of(p)] == p);
            }
            if b.contains(p) {
                assert((a + b)[a.len() + b.index_of(p)] == p);
            }
        }
        if a.contains(p) {
            let i = choose|i: int| 0 <= i < f.len() && (#[trigger] f[i]).1.contains(p);
            assert(groups[i] == f[i]);
        }
        if b.contains(p) {
            assert(groups[n].1.contains(p));
        }
        if exists|i: int| 0 <= i < groups.len() && (#[trigger] groups[i]).1.contains(p) {
            let i = choose|i: int| 0 <= i < groups.len() && (#[trigger] groups[i]).1.contains(p);
            if i < n {
                assert(f[i].1.contains(p));
            }
        }
    }
}

/// What the library takes of a directory is what it takes of each of its entries, joined to the
/// directory's path; of a file, the file itself where it is an audio file; of what is missing,
/// nothing.
pub proof fn law_directory_is_walked(path: Seq<char>, es: Seq<(Seq<char>, NodeV)>, p: Seq<char>)
    ensures
        visited(path, NodeV::Dir(es)).contains(p) <==> exists|i: int|
            0 <= i < es.len() && visited(join_path(path, (#[trigger] es[i]).0), es[i].1).contains(p),
        is_audio(path) ==> visited(path, NodeV::File) == seq![path],
        !is_audio(path) ==> visited(path, NodeV::File).len() == 0,
        visited(path, NodeV::Missing).len() == 0,
{
    let g = entry_groups(path, es);
    let s = sorted_by(g, entry_key());
    law_sorted(g, entry_key());
    lemma_flat(s, p);
    broadcast use vstd::seq_lib::group_to_multiset_ensures;

    if exists|i: int| 0 <= i < s.len() && (#[trigger] s[i]).1.contains(p) {
        let i = choose|i: int| 0 <= i < s.len() && (#[trigger] s[i]).1.contains(p);
        assert(s.contains(s[i]));
        assert(s.to_multiset().count(s[i]) > 0);
        assert(g.contains(s[i]));
        let k = g.index_of(s[i]);
        assert(visited(join_path(path, es[k].0), es[k].1).contains(p));
    }
    if exists|i: int| 0 <= i < es.len() && visited(join_path(path, (#[trigger] es[i]).0), es[i].1).contains(p) {
        let i = choose|i: int| 0 <= i < es.len() && visited(join_path(path, (#[trigger] es[i]).0), es[i].1).contains(p);
        assert(g[i].1.contains(p));
        assert(g.contains(g[i]));
        assert(g.to_multiset().count(g[i]) > 0);
        assert(s.contains(g[i]));
        let k = s.index_of(g[i]);
        assert(s[k].1.contains(p));
    }
}

/// The library is what its roots hold, all of them: a root that is a file is a track whatever its
/// ending, of one that is a directory the audio files count.
pub proof fn law_every_root_counts(roots: Seq<RootV>, p: Seq<char>)
    ensures
        library_of(roots).contains(p) <==> exists|i: int|
            0 <= i < roots.len() && match (#[trigger] roots[i]).node {
                NodeV::File => p == roots[i].path,
                _ => visited(roots[i].path, roots[i].node).contains(p),
            },
{
    law_library(roots);
    lemma_under_roots(roots, p);
}

proof fn lemma_under_roots(roots: Seq<RootV>, p: Seq<char>)
    ensures
        under_roots(roots).contains(p) <==> exists|i: int|
            0 <= i < roots.len() && match (#[trigger] roots[i]).node {
                NodeV::File => p == roots[i].path,
                _ => visited(roots[i].path, roots[i].node).contains(p),
            },
    decreases roots.len(),
{
    if roots.len() > 0 {
        let f = roots.drop_last();
        lemma_under_roots(f, p);
        let r = roots.last();
        let a = under_roots(f);
        let b = under_root(r);
        let n = roots.len() - 1;
        assert(roots[n] == r);
        assert(b.contains(p) <==> match r.node {
            NodeV::File => p == r.path,
            _ => visited(r.path, r.node).contains(p),
        }) by {
            if r.node is File {
                assert(b == seq![r.path]);
                assert(b[0] == r.path);
            }
        }
        assert((a + b).contains(p) <==> a.contains(p) || b.contains(p)) by {
            if a.contains(p) {
                assert((a + b)[a.index_of(p)] == p);
            }
            if b.contains(p) {
                assert((a + b)[a.len() + b.index_of(p)] == p);
            }
        }
        if a.contains(p) {
            let i = choose|i: int|
                0 <= i < f.len() && match (#[trigger] f[i]).node {
                    NodeV::File => p == f[i].path,
                    _ => visited(f[i].path, f[i].node).contains(p),
                };
            assert(roots[i] == f[i]);
        }
        assert forall|i: int|
            0 <= i < roots.len() && (match (#[trigger] roots[i]).node {
                NodeV::File => p == roots[i].path,
                _ => visited(roots[i].path, roots[i].node).contains(p),
            }) implies (a + b).contains(p) by {
            if i < n {
                assert(f[i] == roots[i]);
            }
        }
    }
}

/// What is asked to be played: without words everything; a path of an existing audio file that
/// file, whatever the library holds; any other words are one query.
pub proof fn law_what_is_played(lib: Seq<Seq<char>>, words: Seq<Seq<char>>, home: Seq<char>, rest: Seq<char>)
    ensures
        play_args(lib, Seq::empty(), home, false) == lib,
        words.len() > 1 ==> play_args(lib, words, home, true) == resolved(lib, join(words, " "@)),
        words.len() > 0 ==> play_args(lib, words, home, false) == resolved(lib, join(words, " "@)),
        words.len() == 1 && !starts(words[0], "~/"@) && is_audio(words[0]) ==> play_args(lib, words, home, true) == words,
        words.len() == 1 && !starts(words[0], "~/"@) && !is_audio(words[0]) ==> play_args(lib, words, home, true) == resolved(
            lib,
            words[0],
        ),
        words.len() == 1 && words[0] == "~/"@ + rest && is_audio(join_path(home, rest)) ==> play_args(lib, words, home, true)
            == seq![join_path(home, rest)],
        expanded("~/"@ + rest, home) == join_path(home, rest),
{
    let p = "~/"@ + rest;
    assert(p.subrange(0, "~/"@.len() as int) =~= "~/"@);
    assert(p.skip("~/"@.len() as int) =~= rest);
    if words.len() == 1 {
        assert(words =~= seq![words[0]]);
    }
}

/// A blank query means the whole library, in its order; of two tracks that a query finds, the one
/// of the higher tier comes first, in a tier the one of the higher bonus, and after that the one
/// whose path comes first.
pub proof fn law_better_match_first(lib: Seq<Seq<char>>, query: Seq<char>, i: int, j: int)
    requires
        lib.no_duplicates(),
    ensures
        blank(query) ==> resolved(lib, query) == lib,
        !blank(query) && 0 <= i < j < resolved(lib, query).len() ==> {
            let a = best_score(query, resolved(lib, query)[i]);
            let b = best_score(query, resolved(lib, query)[j]);
            ||| a.0 > b.0
            ||| a.0 == b.0 && a.1 > b.1
            ||| a == b && crate::order::text_le(lower(resolved(lib, query)[i]), lower(resolved(lib, query)[j]))
        },
{
    if !blank(query) {
        law_resolved(lib, query);
    }
}

/// The roots of the library are the configured ones in their order, each below the home directory
/// where it begins with `~/`.
pub proof fn law_roots_are_below_home(c: ConfigV, home: Seq<char>, i: int, rest: Seq<char>)
    requires
        0 <= i < c.library_roots.len(),
    ensures
        roots_of(c, home).len() == c.library_roots.len(),
        c.library_roots[i] == "~/"@ + rest ==> roots_of(c, home)[i] == join_path(home, rest),
        !starts(c.library_roots[i], "~/"@) ==> roots_of(c, home)[i] == c.library_roots[i],
{
    let p = "~/"@ + rest;
    assert(p.skip("~/"@.len() as int) =~= rest);
    crate::text::law_has_is_contains(Seq::empty(), "~/"@, rest);
}

/// The files of the library are ordered by their paths, case aside.
pub proof fn law_files_are_ordered_by_path(p: Seq<char>, q: Seq<char>)
    ensures
        path_key()(p) == path_key()(q) <==> lower(p) == lower(q),
        path_key()(p).name == lower(p) && path_key()(p).first == path_key()(q).first && path_key()(p).second == path_key()(
            q,
        ).second,
{
}

} // verus!
