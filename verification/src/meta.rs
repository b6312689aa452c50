//! The tags of audio files: what a probe says of them, and what is remembered of it.
//!
//! A tag is remembered together with the file's modification time, and counts only as long
//! as that is unchanged. At most two probes run at a time, never two of one file.

use vstd::prelude::*;
use crate::json::{
    int_v, json_compact, json_i64, json_obj, json_parsed_bytes, json_str, member_of, members, parse_bytes, parse_or_null,
    names_ascend, parsed_or_null, plain, reads_as, render, value_stored, Json, JsonV,
};
use crate::nums::{int_in, parse_i64};
use crate::order::{
    key_le, law_sorted, lemma_sorted_map, name_key, name_sort_key, put_sorted, sort_items, sorted_by, KeyV, SortKey,
};
use crate::player::{bare_path, strip_file};
use crate::queue::{display_of, display_text};
use crate::text::{
    blank, cat3, cut_last, holds, is_blank, lemma_filter_take, lemma_filtered, list_has, pair_view, rsplit_once, same, trim,
    trimmed, views,
};

verus! {

/// What is remembered of a file.
pub struct Entry {
    pub path: String,
    pub mtime: i64,
    pub artist: String,
    pub title: String,
}

/// The model of an [`Entry`].
#[verifier::ext_equal]
pub struct EntryV {
    pub path: Seq<char>,
    pub mtime: i64,
    pub artist: Seq<char>,
    pub title: Seq<char>,
}

impl View for Entry {
    type V = EntryV;

    open spec fn view(&self) -> EntryV {
        EntryV { path: self.path@, mtime: self.mtime, artist: self.artist@, title: self.title@ }
    }
}

/// The models of a list of entries.
pub open spec fn entries_view(v: Seq<Entry>) -> Seq<EntryV> {
    Seq::new(v.len(), |i: int| v[i]@)
}

/// The entry of a path.
pub open spec fn entry_for(es: Seq<EntryV>, path: Seq<char>) -> Option<EntryV>
    decreases es.len(),
{
    if es.len() == 0 {
        None
    } else if es[0].path == path {
        Some(es[0])
    } else {
        entry_for(es.skip(1), path)
    }
}

/// The entries with one put in: in the place of the one of its path, else behind all.
pub open spec fn with_entry(es: Seq<EntryV>, e: EntryV) -> Seq<EntryV>
    decreases es.len(),
{
    if es.len() == 0 {
        seq![e]
    } else if es[0].path == e.path {
        seq![e] + es.skip(1)
    } else {
        seq![es[0]] + with_entry(es.skip(1), e)
    }
}

/// The artist and the title that are remembered of a file, if it has not changed since.
pub open spec fn found_tags(es: Seq<EntryV>, path: Seq<char>, mtime: i64) -> Option<(Seq<char>, Seq<char>)> {
    match entry_for(es, path) {
        Some(e) => if e.mtime == mtime {
            Some((e.artist, e.title))
        } else {
            None
        },
        None => None,
    }
}

/// What is remembered, and which probes are running.
pub struct Cache {
    pub entries: Vec<Entry>,
    pub pending: Vec<String>,
    pub inflight: usize,
}

/// The model of a [`Cache`].
#[verifier::ext_equal]
pub struct CacheV {
    pub entries: Seq<EntryV>,
    pub pending: Seq<Seq<char>>,
    pub inflight: int,
}

impl View for Cache {
    type V = CacheV;

    open spec fn view(&self) -> CacheV {
        CacheV {
            entries: entries_view(self.entries@),
            pending: views(self.pending@),
            inflight: self.inflight as int,
        }
    }
}

/// No path has two entries.
pub open spec fn distinct_paths(es: Seq<EntryV>) -> bool {
    forall|i: int, j: int| 0 <= i < j < es.len() ==> (#[trigger] es[i]).path != (#[trigger] es[j]).path
}

impl CacheV {
    /// What a cache keeps: no path has two entries, no file is probed twice at a time, and at
    /// most two are probed.
    pub open spec fn wf(self) -> bool {
        &&& distinct_paths(self.entries)
        &&& self.pending.no_duplicates()
        &&& self.inflight == self.pending.len()
        &&& self.inflight <= 2
    }
}

/// How tags are shown: artist and title, or the one that is known, or the file's stem.
pub open spec fn tags_text(artist: Seq<char>, title: Seq<char>, path: Seq<char>) -> Seq<char> {
    if artist.len() == 0 && title.len() == 0 {
        display_text(path)
    } else if artist.len() == 0 {
        title
    } else if title.len() == 0 {
        artist
    } else {
        artist + " - "@ + title
    }
}

/// How tags are shown.
pub fn format_tags(artist: &str, title: &str, path: &str) -> (r: String)
    ensures
        r@ == tags_text(artist@, title@, path@),
{
    if artist.is_empty() && title.is_empty() {
        display_of(path)
    } else if artist.is_empty() {
        title.to_owned()
    } else if title.is_empty() {
        artist.to_owned()
    } else {
        cat3(artist, " - ", title)
    }
}

// ---- the probe ----

/// The arguments that a file is probed with.
pub open spec fn probe_arguments(path: Seq<char>) -> Seq<Seq<char>> {
    seq!["-v"@, "quiet"@, "-print_format"@, "json"@, "-show_format"@, path]
}

/// The arguments that a file is probed with.
pub fn ffprobe_args(path: &str) -> (r: Vec<String>)
    ensures
        views(r@) == probe_arguments(path@),
{
    let mut r: Vec<String> = Vec::new();
    r.push("-v".to_owned());
    r.push("quiet".to_owned());
    r.push("-print_format".to_owned());
    r.push("json".to_owned());
    r.push("-show_format".to_owned());
    r.push(path.to_owned());
    assert(views(r@) == probe_arguments(path@));
    r
}

/// The first of the tags that is a text and not blank, trimmed; else nothing.
pub open spec fn first_tag(tags: JsonV, keys: Seq<Seq<char>>) -> Seq<char>
    decreases keys.len(),
{
    if keys.len() == 0 {
        ""@
    } else {
        match tags.str_at(keys[0]) {
            Some(s) => if blank(s) {
                first_tag(tags, keys.skip(1))
            } else {
                trim(s)
            },
            None => first_tag(tags, keys.skip(1)),
        }
    }
}

/// Where the artist stands.
pub open spec fn artist_keys() -> Seq<Seq<char>> {
    seq!["artist"@, "ARTIST"@, "TPE1"@, "album_artist"@, "ALBUMARTIST"@]
}

/// Where the title stands.
pub open spec fn title_keys() -> Seq<Seq<char>> {
    seq!["title"@, "TITLE"@, "TIT2"@]
}

/// The artist and the title in a probe's answer, if there is either.
pub open spec fn tags_in(v: JsonV) -> Option<(Seq<char>, Seq<char>)> {
    match v.get("format"@) {
        Some(f) => match f.get("tags"@) {
            Some(tags) => {
                let artist = first_tag(tags, artist_keys());
                let title = first_tag(tags, title_keys());
                if artist.len() == 0 && title.len() == 0 {
                    None
                } else {
                    Some((artist, title))
                }
            },
            None => None,
        },
        None => None,
    }
}

/// The artist and the title in the bytes of a probe's answer.
pub open spec fn probed(out: Seq<u8>) -> Option<(Seq<char>, Seq<char>)> {
    match json_parsed_bytes(out) {
        Ok(v) => tags_in(v),
        Err(_) => None,
    }
}

fn pick_tag(tags: &Json, keys: &Vec<String>) -> (r: String)
    ensures
        r@ == first_tag(tags@, views(keys@)),
{
    assert(views(keys@).skip(0) == views(keys@));
    for i in 0..keys.len()
        invariant
            first_tag(tags@, views(keys@)) == first_tag(tags@, views(keys@).skip(i as int)),
    {
        proof {
            assert(views(keys@).skip(i as int)[0] == keys@[i as int]@);
            assert(views(keys@).skip(i as int).skip(1) == views(keys@).skip(i + 1));
        }
        match tags.str_at(keys[i].as_str()) {
            Some(s) => {
                if !is_blank(s) {
                    return trimmed(s);
                }
            },
            None => {},
        }
    }
    "".to_owned()
}

/// The artist and the title in the answer of a probe that went well.
pub fn ffprobe_tags(out: &Vec<u8>) -> (r: Option<(String, String)>)
    ensures
        pair_view(r) == probed(out@),
{
    let v = match parse_bytes(out) {
        Ok(v) => v,
        Err(_) => {
            return None;
        },
    };
    let mut ak: Vec<String> = Vec::new();
    ak.push("artist".to_owned());
    ak.push("ARTIST".to_owned());
    ak.push("TPE1".to_owned());
    ak.push("album_artist".to_owned());
    ak.push("ALBUMARTIST".to_owned());
    assert(views(ak@) == artist_keys());
    let mut tk: Vec<String> = Vec::new();
    tk.push("title".to_owned());
    tk.push("TITLE".to_owned());
    tk.push("TIT2".to_owned());
    assert(views(tk@) == title_keys());
    match v.get("format") {
        Some(f) => match f.get("tags") {
            Some(tags) => {
                let artist = pick_tag(tags, &ak);
                let title = pick_tag(tags, &tk);
                if artist.as_str().is_empty() && title.as_str().is_empty() {
                    None
                } else {
                    Some((artist, title))
                }
            },
            None => None,
        },
        None => None,
    }
}

// ---- the file ----

/// A key of the file as a path: of an older key, `path:mtime`, the front part, where that is
/// one of `files`; and the time that such a key holds.
pub open spec fn key_path(k: Seq<char>, files: Seq<Seq<char>>) -> (Seq<char>, Option<int>) {
    match cut_last(k, ':') {
        Some((p, rest)) => match int_in(rest, i64::MIN as int, i64::MAX as int) {
            Some(n) => if holds(files, p) {
                (p, Some(n))
            } else {
                (k, None)
            },
            None => (k, None),
        },
        None => (k, None),
    }
}

/// The modification time that a stored entry holds; -1 where there is none.
pub open spec fn stored_mtime(e: JsonV, from_key: Option<int>) -> int {
    match e.i64_at("m"@) {
        Some(n) => if n > 0 {
            n as int
        } else {
            match from_key {
                Some(k) => k,
                None => -1,
            }
        },
        None => match from_key {
            Some(k) => k,
            None => -1,
        },
    }
}

/// The entry that a member of the file stands for. One without tags is none, nor is one
/// whose only tag is the file's own stem, nor one without a time.
pub open spec fn stored_entry(k: Seq<char>, e: JsonV, files: Seq<Seq<char>>) -> Option<EntryV> {
    let artist = e.str_or("a"@, ""@);
    let title = e.str_or("t"@, ""@);
    let (path, from_key) = key_path(k, files);
    let mtime = stored_mtime(e, from_key);
    if e.get("a"@) is None && e.get("t"@) is None {
        None
    } else if artist.len() == 0 && (title.len() == 0 || title == display_text(path)) {
        None
    } else if mtime < 0 {
        None
    } else {
        Some(EntryV { path, mtime: mtime as i64, artist, title })
    }
}

/// The entries with those of a file's members put in.
pub open spec fn with_stored(
    es: Seq<EntryV>,
    o: Seq<(Seq<char>, JsonV)>,
    files: Seq<Seq<char>>,
) -> Seq<EntryV>
    decreases o.len(),
{
    if o.len() == 0 {
        es
    } else {
        let front = with_stored(es, o.drop_last(), files);
        match stored_entry(o.last().0, o.last().1, files) {
            Some(e) => with_entry(front, e),
            None => front,
        }
    }
}

/// The entries with those of a file's text put in.
pub open spec fn loaded(es: Seq<EntryV>, raw: Seq<char>, files: Seq<Seq<char>>) -> Seq<EntryV> {
    match parsed_or_null(raw) {
        JsonV::Obj(o) => with_stored(es, o, files),
        _ => es,
    }
}

/// The paths that keys of the older form would stand for. Whoever holds the disk says which
/// of them are files.
pub open spec fn candidates(o: Seq<(Seq<char>, JsonV)>) -> Seq<Seq<char>>
    decreases o.len(),
{
    if o.len() == 0 {
        Seq::empty()
    } else {
        match cut_last(o.last().0, ':') {
            Some((p, _)) => candidates(o.drop_last()).push(p),
            None => candidates(o.drop_last()),
        }
    }
}

/// The paths that keys of the older form would stand for.
pub fn legacy_paths(raw: &str) -> (r: Vec<String>)
    ensures
        views(r@) == match parsed_or_null(raw@) {
            JsonV::Obj(o) => candidates(o),
            _ => Seq::empty(),
        },
{
    let v = parse_or_null(raw);
    let mut r: Vec<String> = Vec::new();
    assert(views(r@) == Seq::<Seq<char>>::empty());
    match &v {
        Json::Obj(o) => {
            proof {
                crate::json::lemma_obj(*o);
            }
            let ghost all = members(o@);
            assert(all.take(0) == Seq::<(Seq<char>, JsonV)>::empty());
            for i in 0..o.len()
                invariant
                    all == members(o@),
                    views(r@) == candidates(all.take(i as int)),
            {
                proof {
                    assert(all.take(i + 1).drop_last() == all.take(i as int));
                    assert(all.take(i + 1).last() == (o@[i as int].0@, o@[i as int].1@));
                }
                let ghost before = views(r@);
                match rsplit_once(o[i].0.as_str(), ':') {
                    Some((p, _rest)) => {
                        r.push(p);
                        assert(views(r@) == before.push(p@));
                    },
                    None => {},
                }
            }
            assert(all.take(o.len() as int) == all);
        },
        _ => {},
    }
    r
}

fn read_entry(k: &str, e: &Json, files: &Vec<String>) -> (r: Option<Entry>)
    ensures
        match r {
            Some(x) => stored_entry(k@, e@, views(files@)) == Some(x@),
            None => stored_entry(k@, e@, views(files@)) is None,
        },
{
    if e.get("a").is_none() && e.get("t").is_none() {
        return None;
    }
    let artist = e.str_or("a", "");
    let title = e.str_or("t", "");
    let mut path = k.to_owned();
    let mut from_key: Option<i64> = None;
    match rsplit_once(k, ':') {
        Some((p, rest)) => {
            match parse_i64(rest.as_str()) {
                Some(n) => {
                    if list_has(files, p.as_str()) {
                        path = p;
                        from_key = Some(n);
                    }
                },
                None => {},
            }
        },
        None => {},
    }
    let keyed: i64 = match from_key {
        Some(n) => n,
        None => -1,
    };
    let mtime: i64 = match e.i64_at("m") {
        Some(n) => {
            if n > 0 {
                n
            } else {
                keyed
            }
        },
        None => keyed,
    };
    if artist.as_str().is_empty() {
        let stem = display_of(path.as_str());
        if title.as_str().is_empty() || same(title.as_str(), stem.as_str()) {
            return None;
        }
    }
    if mtime < 0 {
        return None;
    }
    Some(Entry { path, mtime, artist, title })
}

/// An entry as it is stored.
pub open spec fn entry_json(e: EntryV) -> JsonV {
    JsonV::Obj(
        seq![("a"@, JsonV::Str(e.artist)), ("m"@, int_v(e.mtime as int)), ("t"@, JsonV::Str(e.title))],
    )
}

/// The key by which entries are ordered: the path.
pub open spec fn path_key() -> spec_fn(EntryV) -> KeyV {
    |e: EntryV| name_key(e.path)
}

/// The entries in the order of their paths.
pub open spec fn by_path(es: Seq<EntryV>) -> Seq<EntryV> {
    sorted_by(es, path_key())
}

/// The entries as they are stored, in the order of their paths.
pub open spec fn cache_json(es: Seq<EntryV>) -> JsonV {
    JsonV::Obj(by_path(es).map_values(|e: EntryV| (e.path, entry_json(e))))
}

proof fn lemma_put_distinct(s: Seq<EntryV>, x: EntryV)
    requires
        distinct_paths(s),
        forall|i: int| 0 <= i < s.len() ==> (#[trigger] s[i]).path != x.path,
    ensures
        distinct_paths(put_sorted(s, x, path_key())),
        forall|e: EntryV| #[trigger] put_sorted(s, x, path_key()).contains(e) <==> s.contains(e) || e == x,
    decreases s.len(),
{
    let w = put_sorted(s, x, path_key());
    if s.len() == 0 || key_le(path_key()(s.last()), path_key()(x)) {
        assert(w == s.push(x));
        assert(w[s.len() as int] == x);
        assert forall|e: EntryV| s.contains(e) implies #[trigger] w.contains(e) by {
            let i = choose|i: int| 0 <= i < s.len() && s[i] == e;
            assert(w[i] == e);
        }
    } else {
        let t = s.drop_last();
        let inner = put_sorted(t, x, path_key());
        assert forall|i: int| 0 <= i < t.len() implies (#[trigger] t[i]).path != x.path by {
            assert(t[i] == s[i]);
        }
        lemma_put_distinct(t, x);
        assert(w == inner.push(s.last()));
        assert forall|i: int| 0 <= i < inner.len() implies (#[trigger] inner[i]).path != s.last().path by {
            assert(inner.contains(inner[i]));
            if inner[i] != x {
                let k = choose|k: int| 0 <= k < t.len() && t[k] == inner[i];
                assert(s[k].path != s[s.len() - 1].path);
            }
        }
        assert forall|e: EntryV| #[trigger] w.contains(e) <==> s.contains(e) || e == x by {
            assert(inner.contains(e) <==> t.contains(e) || e == x);
            if w.contains(e) {
                let i = choose|i: int| 0 <= i < w.len() && w[i] == e;
                if i < inner.len() {
                    assert(inner[i] == e);
                    if t.contains(e) {
                        let k = choose|k: int| 0 <= k < t.len() && t[k] == e;
                        assert(s[k] == e);
                    }
                } else {
                    assert(s[s.len() - 1] == e);
                }
            }
            if s.contains(e) {
                let i = choose|i: int| 0 <= i < s.len() && s[i] == e;
                if i < t.len() {
                    assert(t[i] == e);
                }
            }
            if inner.contains(e) {
                let i = choose|i: int| 0 <= i < inner.len() && inner[i] == e;
                assert(w[i] == e);
            }
            assert(w[w.len() - 1] == s.last());
        }
    }
}

proof fn lemma_by_path(es: Seq<EntryV>)
    requires
        distinct_paths(es),
    ensures
        distinct_paths(by_path(es)),
        forall|e: EntryV| #[trigger] by_path(es).contains(e) <==> es.contains(e),
    decreases es.len(),
{
    if es.len() > 0 {
        let t = es.drop_last();
        lemma_by_path(t);
        assert forall|i: int| 0 <= i < by_path(t).len() implies (#[trigger] by_path(t)[i]).path != es.last().path by {
            assert(by_path(t).contains(by_path(t)[i]));
            let k = choose|k: int| 0 <= k < t.len() && t[k] == by_path(t)[i];
            assert(es[k].path != es[es.len() - 1].path);
        }
        lemma_put_distinct(by_path(t), es.last());
        assert forall|e: EntryV| #[trigger] by_path(es).contains(e) <==> es.contains(e) by {
            assert(by_path(t).contains(e) <==> t.contains(e));
            if es.contains(e) {
                let i = choose|i: int| 0 <= i < es.len() && es[i] == e;
                if i < t.len() {
                    assert(t[i] == e);
                }
            }
            if t.contains(e) {
                let i = choose|i: int| 0 <= i < t.len() && t[i] == e;
                assert(es[i] == e);
            }
            assert(es[es.len() - 1] == es.last());
        }
    }
}

/// Of distinct paths, the entry of a path is the one in the list that has it.
proof fn lemma_entry_for(es: Seq<EntryV>, path: Seq<char>)
    ensures
        match entry_for(es, path) {
            Some(e) => es.contains(e) && e.path == path,
            None => forall|i: int| 0 <= i < es.len() ==> (#[trigger] es[i]).path != path,
        },
    decreases es.len(),
{
    if es.len() > 0 && es[0].path != path {
        let t = es.skip(1);
        lemma_entry_for(t, path);
        match entry_for(es, path) {
            Some(e) => {
                let i = choose|i: int| 0 <= i < t.len() && t[i] == e;
                assert(es[i + 1] == e);
            },
            None => {
                assert forall|i: int| 0 <= i < es.len() implies (#[trigger] es[i]).path != path by {
                    if i > 0 {
                        assert(t[i - 1] == es[i]);
                    }
                }
            },
        }
    }
}

proof fn lemma_entry_unique(es: Seq<EntryV>, e: EntryV)
    requires
        distinct_paths(es),
        es.contains(e),
    ensures
        entry_for(es, e.path) == Some(e),
{
    lemma_entry_for(es, e.path);
    let i = choose|i: int| 0 <= i < es.len() && es[i] == e;
    assert(es[i].path == e.path);
    let f = entry_for(es, e.path)->0;
    let j = choose|j: int| 0 <= j < es.len() && es[j] == f;
    assert(es[j].path == es[i].path);
}

proof fn lemma_cache_plain(es: Seq<EntryV>)
    requires
        distinct_paths(es),
    ensures
        plain(cache_json(es), 100),
{
    lemma_by_path(es);
    law_sorted(es, path_key());
    reveal_strlit("a");
    reveal_strlit("m");
    reveal_strlit("t");
    reveal_with_fuel(crate::order::text_le, 2);
    let s = by_path(es);
    let o = cache_json(es)->Obj_0;
    assert forall|i: int, j: int| 0 <= i < j < o.len() implies crate::order::text_le(
        (#[trigger] o[i]).0,
        (#[trigger] o[j]).0,
    ) && o[i].0 != o[j].0 by {
        assert(key_le(path_key()(s[i]), path_key()(s[j])));
    }
    assert(names_ascend(o));
    assert forall|i: int| 0 <= i < o.len() implies plain((#[trigger] o[i]).1, 99) by {
        let m = entry_json(s[i])->Obj_0;
        assert(o[i].1 == entry_json(s[i]));
        assert(names_ascend(m));
        assert(plain(int_v(s[i].mtime as int), 98));
        assert(plain(m[0].1, 98) && plain(m[1].1, 98) && plain(m[2].1, 98));
    }
}

proof fn lemma_with_entry_distinct(es: Seq<EntryV>, e: EntryV)
    requires
        distinct_paths(es),
    ensures
        distinct_paths(with_entry(es, e)),
        forall|i: int|
            0 <= i < with_entry(es, e).len() ==> (#[trigger] with_entry(es, e)[i]).path == e.path || es.contains(
                with_entry(es, e)[i],
            ),
    decreases es.len(),
{
    let w = with_entry(es, e);
    if es.len() > 0 {
        let t = es.skip(1);
        assert forall|i: int, j: int| 0 <= i < j < t.len() implies (#[trigger] t[i]).path != (#[trigger] t[j]).path by {
            assert(es[i + 1].path != es[j + 1].path);
        }
        let front = if es[0].path == e.path {
            e
        } else {
            es[0]
        };
        let rest = if es[0].path == e.path {
            t
        } else {
            with_entry(t, e)
        };
        if es[0].path != e.path {
            lemma_with_entry_distinct(t, e);
        }
        assert(w == seq![front] + rest);
        assert forall|i: int| 0 <= i < rest.len() implies (#[trigger] rest[i]).path != front.path && (rest[i].path
            == e.path || es.contains(rest[i])) by {
            if es[0].path == e.path || rest[i].path != e.path {
                assert(t.contains(rest[i])) by {
                    if es[0].path == e.path {
                        assert(t[i] == rest[i]);
                    }
                }
                let k = choose|k: int| 0 <= k < t.len() && t[k] == rest[i];
                assert(es[0].path != es[k + 1].path);
                assert(es[k + 1] == rest[i]);
            }
        }
        assert forall|i: int, j: int| 0 <= i < j < w.len() implies (#[trigger] w[i]).path != (#[trigger] w[j]).path by {
            assert(w[j] == rest[j - 1]);
            if i > 0 {
                assert(w[i] == rest[i - 1]);
            }
        }
        assert forall|i: int| 0 <= i < w.len() implies (#[trigger] w[i]).path == e.path || es.contains(w[i]) by {
            if i > 0 {
                assert(w[i] == rest[i - 1]);
            } else {
                assert(es.contains(es[0]));
            }
        }
    }
}

proof fn lemma_stored_distinct(es: Seq<EntryV>, o: Seq<(Seq<char>, JsonV)>, files: Seq<Seq<char>>)
    requires
        distinct_paths(es),
    ensures
        distinct_paths(with_stored(es, o, files)),
    decreases o.len(),
{
    if o.len() > 0 {
        lemma_stored_distinct(es, o.drop_last(), files);
        match stored_entry(o.last().0, o.last().1, files) {
            Some(e) => {
                lemma_with_entry_distinct(with_stored(es, o.drop_last(), files), e);
            },
            None => {},
        }
    }
}

proof fn lemma_with_entry(es: Seq<EntryV>, e: EntryV)
    ensures
        entry_for(with_entry(es, e), e.path) == Some(e),
        forall|p: Seq<char>| p != e.path ==> #[trigger] entry_for(with_entry(es, e), p) == entry_for(es, p),
    decreases es.len(),
{
    let w = with_entry(es, e);
    if es.len() == 0 {
        assert(w[0] == e);
        assert(w.skip(1) == es);
        reveal_with_fuel(entry_for, 2);
    } else if es[0].path == e.path {
        assert(w[0] == e);
        assert(w.skip(1) == es.skip(1));
    } else {
        lemma_with_entry(es.skip(1), e);
        assert(w[0] == es[0]);
        assert(w.skip(1) == with_entry(es.skip(1), e));
    }
    assert forall|p: Seq<char>| p != e.path implies #[trigger] entry_for(w, p) == entry_for(es, p) by {
        if es.len() > 0 && es[0].path != e.path {
            assert(entry_for(with_entry(es.skip(1), e), p) == entry_for(es.skip(1), p));
        }
    }
}

impl Cache {
    /// A cache that remembers nothing.
    pub fn new() -> (c: Cache)
        ensures
            c@ == (CacheV { entries: Seq::empty(), pending: Seq::empty(), inflight: 0 }),
            c@.wf(),
    {
        let c = Cache { entries: Vec::new(), pending: Vec::new(), inflight: 0 };
        assert(c@.entries == Seq::<EntryV>::empty());
        assert(c@.pending == Seq::<Seq<char>>::empty());
        c
    }

    fn put(&mut self, e: Entry)
        ensures
            final(self)@ == (CacheV { entries: with_entry(old(self)@.entries, e@), ..old(self)@ }),
            old(self)@.wf() ==> final(self)@.wf(),
    {
        let ghost all = self@.entries;
        proof {
            if distinct_paths(all) {
                lemma_with_entry_distinct(all, e@);
            }
        }
        let n: usize = self.entries.len();
        let mut i: usize = 0;
        assert(all.skip(0) == all);
        assert(all.take(0) + with_entry(all.skip(0), e@) == with_entry(all, e@));
        while i < n && !same(self.entries[i].path.as_str(), e.path.as_str())
            invariant
                i <= n,
                n == self.entries.len(),
                all == self@.entries,
                self@ == old(self)@,
                all.take(i as int) + with_entry(all.skip(i as int), e@) == with_entry(all, e@),
            ensures
                i == n || self.entries@[i as int].path@ == e@.path,
            decreases n - i,
        {
            proof {
                let s = all.skip(i as int);
                assert(s[0] == self.entries@[i as int]@);
                assert(s.skip(1) == all.skip(i + 1));
                assert(all.take(i + 1) + with_entry(all.skip(i + 1), e@) == all.take(i as int) + (seq![s[0]]
                    + with_entry(all.skip(i + 1), e@)));
            }
            i = i + 1;
        }
        let ghost s = all.skip(i as int);
        if i < n {
            assert(s[0] == self.entries@[i as int]@);
            self.entries.set(i, e);
            assert(self@.entries == all.take(i as int) + (seq![e@] + s.skip(1)));
        } else {
            self.entries.push(e);
            assert(self@.entries == all.take(i as int) + seq![e@]);
        }
    }

    /// Takes over what a file's text remembers. `files` are those of the paths in keys of the
    /// older form that are files.
    pub fn load_disk(&mut self, raw: &str, files: &Vec<String>)
        ensures
            final(self)@ == (CacheV { entries: loaded(old(self)@.entries, raw@, views(files@)), ..old(self)@ }),
            old(self)@.wf() ==> final(self)@.wf(),
    {
        let v = parse_or_null(raw);
        match &v {
            Json::Obj(o) => {
                proof {
                    crate::json::lemma_obj(*o);
                }
                let ghost all = members(o@);
                let ghost start = self@;
                assert(all.take(0) == Seq::<(Seq<char>, JsonV)>::empty());
                for i in 0..o.len()
                    invariant
                        all == members(o@),
                        self@ == (CacheV {
                            entries: with_stored(start.entries, all.take(i as int), views(files@)),
                            ..start
                        }),
                {
                    proof {
                        assert(all.take(i + 1).drop_last() == all.take(i as int));
                        assert(all.take(i + 1).last() == (o@[i as int].0@, o@[i as int].1@));
                    }
                    match read_entry(o[i].0.as_str(), &o[i].1, files) {
                        Some(e) => {
                            self.put(e);
                        },
                        None => {},
                    }
                }
                proof {
                    assert(all.take(o.len() as int) == all);
                    if distinct_paths(start.entries) {
                        lemma_stored_distinct(start.entries, all, views(files@));
                    }
                }
            },
            _ => {},
        }
    }

    /// The text that is stored. It reads back as what it stands for.
    pub fn save_disk(&self) -> (s: String)
        ensures
            s@ == json_compact(value_stored(cache_json(self@.entries))),
            self@.wf() ==> reads_as(s@, cache_json(self@.entries)),
    {
        let mut o: Vec<(String, Json)> = Vec::new();
        let mut keys: Vec<SortKey> = Vec::new();
        let ghost raw = |m: (String, Json)| name_key(m.0@);
        for i in 0..self.entries.len()
            invariant
                o.len() == i,
                keys.len() == i,
                raw == (|m: (String, Json)| name_key(m.0@)),
                forall|k: int|
                    0 <= k < i ==> (#[trigger] o@[k]).0@ == self.entries@[k].path@ && o@[k].1@ == entry_json(
                        self.entries@[k]@,
                    ),
                forall|k: int| 0 <= k < i ==> (#[trigger] keys@[k])@ == raw(o@[k]),
        {
            let e = &self.entries[i];
            let mut m: Vec<(String, Json)> = Vec::new();
            m.push(member_of("a", json_str(e.artist.as_str())));
            m.push(member_of("m", json_i64(e.mtime)));
            m.push(member_of("t", json_str(e.title.as_str())));
            assert(members(m@) == entry_json(e@)->Obj_0);
            let ghost before = o@;
            o.push(member_of(e.path.as_str(), json_obj(m)));
            keys.push(name_sort_key(e.path.as_str()));
            assert forall|k: int| 0 <= k < i + 1 implies (#[trigger] keys@[k])@ == raw(o@[k]) by {
                if k < i {
                    assert(o@[k] == before[k]);
                }
            }
        }
        let ghost all = o@;
        sort_items(&mut o, keys, Ghost(raw));
        proof {
            let es = self@.entries;
            let f = |m: (String, Json)| (m.0@, m.1@);
            let g = |e: EntryV| (e.path, entry_json(e));
            let key = |m: (Seq<char>, JsonV)| name_key(m.0);
            lemma_sorted_map(all, f, raw, key);
            lemma_sorted_map(es, g, path_key(), key);
            assert(all.map_values(f) == es.map_values(g));
            assert(members(o@) == o@.map_values(f));
            assert(members(o@) == cache_json(es)->Obj_0);
            if distinct_paths(es) {
                lemma_cache_plain(es);
            }
        }
        render(&json_obj(o))
    }

    /// The artist and the title that are remembered of a file, if it has not changed since.
    pub fn lookup(&self, path: &str, mtime: i64) -> (r: Option<(String, String)>)
        ensures
            pair_view(r) == found_tags(self@.entries, path@, mtime),
    {
        let ghost all = self@.entries;
        assert(all.skip(0) == all);
        for i in 0..self.entries.len()
            invariant
                all == self@.entries,
                entry_for(all, path@) == entry_for(all.skip(i as int), path@),
        {
            proof {
                assert(all.skip(i as int)[0] == self.entries@[i as int]@);
                assert(all.skip(i as int).skip(1) == all.skip(i + 1));
            }
            let e = &self.entries[i];
            if same(e.path.as_str(), path) {
                if e.mtime == mtime {
                    return Some((e.artist.clone(), e.title.clone()));
                }
                return None;
            }
        }
        None
    }

    /// Remembers the tags of a file.
    pub fn store(&mut self, path: &str, mtime: i64, artist: &str, title: &str)
        ensures
            final(self)@ == (CacheV {
                entries: with_entry(
                    old(self)@.entries,
                    EntryV { path: path@, mtime, artist: artist@, title: title@ },
                ),
                ..old(self)@
            }),
            old(self)@.wf() ==> final(self)@.wf(),
    {
        self.put(Entry { path: path.to_owned(), mtime, artist: artist.to_owned(), title: title.to_owned() });
    }

    /// Whether another probe may run; it then counts as running.
    fn try_begin_worker(&mut self) -> (b: bool)
        ensures
            b == (old(self)@.inflight < 2),
            final(self)@ == (CacheV {
                inflight: if b {
                    old(self)@.inflight + 1
                } else {
                    old(self)@.inflight
                },
                ..old(self)@
            }),
    {
        if self.inflight >= 2 {
            return false;
        }
        self.inflight = self.inflight + 1;
        true
    }

    /// Whether a file is to be probed: not where its tags are remembered, where it is being
    /// probed, or where two others are. It then is being probed.
    pub fn warm(&mut self, path: &str, mtime: i64) -> (start: bool)
        requires
            old(self)@.wf(),
        ensures
            final(self)@.wf(),
            start == (found_tags(old(self)@.entries, path@, mtime) is None && !holds(old(self)@.pending, path@)
                && old(self)@.inflight < 2),
            final(self)@ == if start {
                CacheV {
                    pending: old(self)@.pending.push(path@),
                    inflight: old(self)@.inflight + 1,
                    ..old(self)@
                }
            } else {
                old(self)@
            },
    {
        if self.lookup(path, mtime).is_some() {
            return false;
        }
        if list_has(&self.pending, path) {
            return false;
        }
        if !self.try_begin_worker() {
            return false;
        }
        let ghost before = self@.pending;
        self.pending.push(path.to_owned());
        proof {
            let now = self@.pending;
            assert(now == before.push(path@));
            assert forall|i: int, j: int| 0 <= i < now.len() && 0 <= j < now.len() && i != j implies now[i]
                != now[j] by {
                if i < before.len() {
                    assert(before[i] != path@);
                }
                if j < before.len() {
                    assert(before[j] != path@);
                }
            }
        }
        true
    }

    /// A probe has ended: its tags, or empty ones, are remembered.
    pub fn probe_done(&mut self, path: &str, mtime: i64, hit: Option<(String, String)>)
        requires
            old(self)@.wf(),
            holds(old(self)@.pending, path@),
        ensures
            final(self)@.wf(),
            final(self)@.entries == with_entry(
                old(self)@.entries,
                EntryV { path: path@, mtime, artist: hit_tags(pair_view(hit)).0, title: hit_tags(pair_view(hit)).1 },
            ),
            final(self)@.pending == old(self)@.pending.filter(|p: Seq<char>| p != path@),
            !holds(final(self)@.pending, path@),
            final(self)@.inflight == old(self)@.inflight - 1,
    {
        let (artist, title) = match hit {
            Some((a, t)) => (a, t),
            None => ("".to_owned(), "".to_owned()),
        };
        self.store(path, mtime, artist.as_str(), title.as_str());
        let mut rest: Vec<String> = Vec::new();
        let ghost all = self@.pending;
        let ghost p = |k: Seq<char>| k != path@;
        let ghost mid = self@;
        proof {
            reveal(Seq::filter);
            assert(views(rest@) == all.take(0).filter(p));
        }
        for i in 0..self.pending.len()
            invariant
                all == self@.pending,
                self@ == mid,
                p == (|k: Seq<char>| k != path@),
                views(rest@) == all.take(i as int).filter(p),
        {
            let ghost before = views(rest@);
            if !same(self.pending[i].as_str(), path) {
                rest.push(self.pending[i].clone());
                assert(views(rest@) == before.push(all[i as int]));
            }
            proof {
                lemma_filter_take(all, p, i as int);
            }
        }
        proof {
            assert(all.take(self.pending.len() as int) == all);
            lemma_filtered(all, p);
            lemma_filter_one(all, path@, p);
            assert forall|i: int| 0 <= i < all.filter(p).len() implies all.filter(p)[i] != path@ by {
                assert(all.filter(p).contains(all.filter(p)[i]));
            }
        }
        self.pending = rest;
        assert(self@.pending == all.filter(p));
        self.inflight = self.inflight - 1;
    }

    /// How a file is shown by what is remembered; `file://` is stripped. Nothing is probed.
    pub fn display_cached(&self, path: &str, mtime: i64) -> (r: String)
        ensures
            r@ == shown_tags(self@.entries, bare_path(path@), mtime),
    {
        let p = strip_file(path);
        match self.lookup(p.as_str(), mtime) {
            Some((a, t)) => format_tags(a.as_str(), t.as_str(), p.as_str()),
            None => display_of(p.as_str()),
        }
    }

    /// How a file is shown by what is remembered, and whether it is to be probed for the next
    /// time.
    pub fn display(&mut self, path: &str, mtime: i64) -> (r: (String, bool))
        requires
            old(self)@.wf(),
        ensures
            final(self)@.wf(),
            r.0@ == shown_tags(old(self)@.entries, bare_path(path@), mtime),
            r.1 == (found_tags(old(self)@.entries, bare_path(path@), mtime) is None && !holds(
                old(self)@.pending,
                bare_path(path@),
            ) && old(self)@.inflight < 2),
            final(self)@ == if r.1 {
                CacheV {
                    pending: old(self)@.pending.push(bare_path(path@)),
                    inflight: old(self)@.inflight + 1,
                    ..old(self)@
                }
            } else {
                old(self)@
            },
    {
        let text = self.display_cached(path, mtime);
        let p = strip_file(path);
        let start = self.warm(p.as_str(), mtime);
        (text, start)
    }

    /// Whether a file has to be probed before it can be shown by its tags.
    pub fn needs_probe(&self, path: &str, mtime: i64) -> (b: bool)
        ensures
            b == (found_tags(self@.entries, bare_path(path@), mtime) is None),
    {
        self.lookup(strip_file(path).as_str(), mtime).is_none()
    }

    /// How a file is shown: by what is remembered, else by what a probe said, which is
    /// remembered.
    pub fn display_sync(&mut self, path: &str, mtime: i64, hit: Option<(String, String)>) -> (r: String)
        ensures
            final(self)@ == after_probe(old(self)@, bare_path(path@), mtime, pair_view(hit)),
            r@ == shown_tags(final(self)@.entries, bare_path(path@), mtime),
            old(self)@.wf() ==> final(self)@.wf(),
    {
        let p = strip_file(path);
        let tags = self.tags_for_sync(path, mtime, hit);
        format_tags(tags.0.as_str(), tags.1.as_str(), p.as_str())
    }

    /// The artist and the title that are remembered, empty where they are not; and whether
    /// the file is to be probed for the next time.
    pub fn tags_for(&mut self, path: &str, mtime: i64) -> (r: (String, String, bool))
        requires
            old(self)@.wf(),
        ensures
            final(self)@.wf(),
            (r.0@, r.1@) == hit_tags(found_tags(old(self)@.entries, bare_path(path@), mtime)),
            r.2 == (found_tags(old(self)@.entries, bare_path(path@), mtime) is None && !holds(
                old(self)@.pending,
                bare_path(path@),
            ) && old(self)@.inflight < 2),
            final(self)@ == if r.2 {
                CacheV {
                    pending: old(self)@.pending.push(bare_path(path@)),
                    inflight: old(self)@.inflight + 1,
                    ..old(self)@
                }
            } else {
                old(self)@
            },
    {
        let p = strip_file(path);
        match self.lookup(p.as_str(), mtime) {
            Some((a, t)) => (a, t, false),
            None => {
                let start = self.warm(p.as_str(), mtime);
                ("".to_owned(), "".to_owned(), start)
            },
        }
    }

    /// The artist and the title: as they are remembered, else as a probe said, which is
    /// remembered.
    pub fn tags_for_sync(&mut self, path: &str, mtime: i64, hit: Option<(String, String)>) -> (r: (String, String))
        ensures
            final(self)@ == after_probe(old(self)@, bare_path(path@), mtime, pair_view(hit)),
            found_tags(final(self)@.entries, bare_path(path@), mtime) == Some((r.0@, r.1@)),
            old(self)@.wf() ==> final(self)@.wf(),
    {
        let p = strip_file(path);
        match self.lookup(p.as_str(), mtime) {
            Some((a, t)) => (a, t),
            None => {
                let (a, t) = match hit {
                    Some((a, t)) => (a, t),
                    None => ("".to_owned(), "".to_owned()),
                };
                proof {
                    lemma_with_entry(
                        self@.entries,
                        EntryV { path: p@, mtime, artist: a@, title: t@ },
                    );
                }
                self.store(p.as_str(), mtime, a.as_str(), t.as_str());
                (a, t)
            },
        }
    }
}

/// The tags of a probe, empty where it found none.
pub open spec fn hit_tags(hit: Option<(Seq<char>, Seq<char>)>) -> (Seq<char>, Seq<char>) {
    match hit {
        Some(h) => h,
        None => (""@, ""@),
    }
}

/// How a file is shown by what is remembered; by its stem where nothing is.
pub open spec fn shown_tags(es: Seq<EntryV>, path: Seq<char>, mtime: i64) -> Seq<char> {
    match found_tags(es, path, mtime) {
        Some((a, t)) => tags_text(a, t, path),
        None => display_text(path),
    }
}

/// The cache after a file was shown with a probe: what the probe said is remembered where
/// nothing was.
pub open spec fn after_probe(
    c: CacheV,
    path: Seq<char>,
    mtime: i64,
    hit: Option<(Seq<char>, Seq<char>)>,
) -> CacheV {
    match found_tags(c.entries, path, mtime) {
        Some(_) => c,
        None => CacheV {
            entries: with_entry(
                c.entries,
                EntryV { path, mtime, artist: hit_tags(hit).0, title: hit_tags(hit).1 },
            ),
            ..c
        },
    }
}

proof fn lemma_filter_one(v: Seq<Seq<char>>, x: Seq<char>, p: spec_fn(Seq<char>) -> bool)
    requires
        v.no_duplicates(),
        holds(v, x),
        forall|k: Seq<char>| #[trigger] p(k) <==> k != x,
    ensures
        v.filter(p).len() == v.len() - 1,
    decreases v.len(),
{
    reveal(Seq::filter);
    let t = v.drop_last();
    assert(t.no_duplicates());
    if v.last() == x {
        assert forall|i: int| 0 <= i < t.len() implies p(#[trigger] t[i]) by {
            assert(v[i] != v[v.len() - 1]);
        }
        lemma_filter_keeps(t, p);
    } else {
        let i = choose|i: int| 0 <= i < v.len() && v[i] == x;
        assert(t[i] == x);
        lemma_filter_one(t, x, p);
    }
}

proof fn lemma_filter_keeps(v: Seq<Seq<char>>, p: spec_fn(Seq<char>) -> bool)
    requires
        forall|i: int| 0 <= i < v.len() ==> p(#[trigger] v[i]),
    ensures
        v.filter(p).len() == v.len(),
    decreases v.len(),
{
    reveal(Seq::filter);
    if v.len() > 0 {
        let t = v.drop_last();
        assert forall|i: int| 0 <= i < t.len() implies p(#[trigger] t[i]) by {
            assert(p(v[i]));
        }
        lemma_filter_keeps(t, p);
        assert(p(v[v.len() - 1]));
    }
}

// ---- laws ----

/// What was stored of a file is found, as long as the file is unchanged, and what is
/// remembered of other files stays.
pub proof fn law_store_lookup(es: Seq<EntryV>, e: EntryV, path: Seq<char>, mtime: i64)
    ensures
        found_tags(with_entry(es, e), e.path, e.mtime) == Some((e.artist, e.title)),
        mtime != e.mtime ==> found_tags(with_entry(es, e), e.path, mtime) is None,
        path != e.path ==> found_tags(with_entry(es, e), path, mtime) == found_tags(es, path, mtime),
{
    lemma_with_entry(es, e);
}

/// Whether an entry outlives a restart: it has a time, and tags that say more than the file's
/// stem.
pub open spec fn outlives(e: EntryV) -> bool {
    e.mtime > 0 && !(e.artist.len() == 0 && (e.title.len() == 0 || e.title == display_text(e.path)))
}

/// What was saved is found again after a restart: the tags of every file whose entry outlives
/// one, under its path and its time, and nothing else. The paths are not to be taken for keys
/// of the older form.
pub proof fn law_saved_cache_loads(es: Seq<EntryV>, files: Seq<Seq<char>>, text: Seq<char>, path: Seq<char>, mtime: i64)
    requires
        distinct_paths(es),
        reads_as(text, cache_json(es)),
        forall|i: int| 0 <= i < es.len() ==> key_path((#[trigger] es[i]).path, files) == (es[i].path, None::<int>),
    ensures
        found_tags(loaded(Seq::empty(), text, files), path, mtime) == match entry_for(es, path) {
            Some(e) => if outlives(e) && e.mtime == mtime {
                Some((e.artist, e.title))
            } else {
                None
            },
            None => None,
        },
{
    let s = by_path(es);
    lemma_by_path(es);
    assert forall|i: int| 0 <= i < s.len() implies key_path((#[trigger] s[i]).path, files) == (s[i].path, None::<
        int,
    >) by {
        assert(s.contains(s[i]));
        let k = choose|k: int| 0 <= k < es.len() && es[k] == s[i];
        assert(key_path(es[k].path, files) == (es[k].path, None::<int>));
    }
    lemma_reloaded(s, files, path);
    lemma_entry_for(es, path);
    lemma_entry_for(s, path);
    match entry_for(es, path) {
        Some(e) => {
            lemma_entry_unique(s, e);
        },
        None => {
            match entry_for(s, path) {
                Some(e) => {
                    let k = choose|k: int| 0 <= k < es.len() && es[k] == e;
                    assert(es[k].path == path);
                },
                None => {},
            }
        },
    }
}

proof fn lemma_reloaded(s: Seq<EntryV>, files: Seq<Seq<char>>, path: Seq<char>)
    requires
        distinct_paths(s),
        forall|i: int| 0 <= i < s.len() ==> key_path((#[trigger] s[i]).path, files) == (s[i].path, None::<int>),
    ensures
        entry_for(with_stored(Seq::empty(), s.map_values(|e: EntryV| (e.path, entry_json(e))), files), path)
            == match entry_for(s, path) {
            Some(e) => if outlives(e) {
                Some(e)
            } else {
                None
            },
            None => None,
        },
    decreases s.len(),
{
    let f = |e: EntryV| (e.path, entry_json(e));
    let o = s.map_values(f);
    if s.len() > 0 {
        let t = s.drop_last();
        let l = s.last();
        assert(o.drop_last() == t.map_values(f));
        assert forall|i: int| 0 <= i < t.len() implies key_path((#[trigger] t[i]).path, files) == (t[i].path, None::<
            int,
        >) by {
            assert(t[i] == s[i]);
        }
        lemma_reloaded(t, files, path);
        assert(key_path(s[s.len() - 1].path, files) == (l.path, None::<int>));
        lemma_entry_reads_back(l, files);
        let front = with_stored(Seq::empty(), t.map_values(f), files);
        lemma_with_entry(front, l);
        lemma_entry_for(s, path);
        lemma_entry_for(t, path);
        if l.path == path {
            assert(s[s.len() - 1] == l);
            lemma_entry_unique(s, l);
        }
        match entry_for(t, path) {
            Some(e) => {
                let k = choose|k: int| 0 <= k < t.len() && t[k] == e;
                assert(s[k] == e && s[k].path != s[s.len() - 1].path);
                assert(s.contains(e));
                lemma_entry_unique(s, e);
            },
            None => {
                if l.path != path {
                    match entry_for(s, path) {
                        Some(e) => {
                            let k = choose|k: int| 0 <= k < s.len() && s[k] == e;
                            assert(t[k].path == path);
                        },
                        None => {},
                    }
                }
            },
        }
    }
}

proof fn lemma_entry_reads_back(e: EntryV, files: Seq<Seq<char>>)
    requires
        key_path(e.path, files) == (e.path, None::<int>),
    ensures
        stored_entry(e.path, entry_json(e), files) == if outlives(e) {
            Some(e)
        } else {
            None
        },
{
    reveal_strlit("a");
    reveal_strlit("m");
    reveal_strlit("t");
    reveal_with_fuel(crate::json::member, 4);
    assert("a"@[0] == 'a' && "m"@[0] == 'm' && "t"@[0] == 't');
}

/// Tags are shown as artist and title, with a dash between them; where one is missing, by the
/// other; where both are, by the name of the file.
pub proof fn law_tags_are_shown(artist: Seq<char>, title: Seq<char>, path: Seq<char>)
    ensures
        artist.len() > 0 && title.len() > 0 ==> tags_text(artist, title, path) == artist + " - "@ + title,
        artist.len() == 0 && title.len() > 0 ==> tags_text(artist, title, path) == title,
        artist.len() > 0 && title.len() == 0 ==> tags_text(artist, title, path) == artist,
        artist.len() == 0 && title.len() == 0 ==> tags_text(artist, title, path) == display_text(path),
{
}

/// The artist and the title of a probe's answer are the tags of those names, trimmed: of an artist
/// by any of five names, of a title by any of three, the first that is not blank. Without either
/// there are none.
pub proof fn law_tags_are_read(v: JsonV, tags: JsonV, a: Seq<char>, t: Seq<char>)
    requires
        v.get("format"@) is Some,
        v.get("format"@)->0.get("tags"@) == Some(tags),
        !blank(a),
        !blank(t),
    ensures
        tags.str_at("artist"@) == Some(a) && tags.str_at("title"@) == Some(t) ==> tags_in(v) == Some((trim(a), trim(t))),
        tags.str_at("artist"@) is None && tags.str_at("ARTIST"@) == Some(a) && tags.str_at("title"@) is None && tags.str_at(
            "TITLE"@,
        ) == Some(t) ==> tags_in(v) == Some((trim(a), trim(t))),
        tags.str_at("artist"@) is None && tags.str_at("ARTIST"@) is None && tags.str_at("TPE1"@) == Some(a) && tags.str_at(
            "title"@,
        ) is None && tags.str_at("TITLE"@) is None && tags.str_at("TIT2"@) == Some(t) ==> tags_in(v) == Some((trim(a), trim(t))),
        tags.str_at("artist"@) is None && tags.str_at("ARTIST"@) is None && tags.str_at("TPE1"@) is None && tags.str_at(
            "album_artist"@,
        ) == Some(a) && tags.str_at("title"@) == Some(t) ==> tags_in(v) == Some((trim(a), trim(t))),
        tags.str_at("artist"@) is None && tags.str_at("ARTIST"@) is None && tags.str_at("TPE1"@) is None && tags.str_at(
            "album_artist"@,
        ) is None && tags.str_at("ALBUMARTIST"@) is None && tags.str_at("title"@) is None && tags.str_at("TITLE"@) is None
            && tags.str_at("TIT2"@) is None ==> tags_in(v) is None,
{
    reveal_strlit("");
    let ak = artist_keys();
    let tk = title_keys();
    reveal_with_fuel(first_tag, 6);
    assert(ak[0] == "artist"@ && ak.skip(1)[0] == "ARTIST"@ && ak.skip(1).skip(1)[0] == "TPE1"@);
    assert(ak.skip(1).skip(1).skip(1)[0] == "album_artist"@ && ak.skip(1).skip(1).skip(1).skip(1)[0] == "ALBUMARTIST"@);
    assert(ak.skip(1).skip(1).skip(1).skip(1).skip(1).len() == 0);
    assert(tk[0] == "title"@ && tk.skip(1)[0] == "TITLE"@ && tk.skip(1).skip(1)[0] == "TIT2"@);
    assert(tk.skip(1).skip(1).skip(1).len() == 0);
    assert(trim(a).len() > 0 && trim(t).len() > 0);
}

/// A file that is remembered is shown by its tags and not probed again; one that is not is shown by
/// its name until a probe's answer is remembered.
pub proof fn law_remembered_is_shown(c: CacheV, path: Seq<char>, mtime: i64, artist: Seq<char>, title: Seq<char>)
    requires
        found_tags(c.entries, path, mtime) is None,
    ensures
        shown_tags(c.entries, path, mtime) == display_text(path),
        ({
            let after = after_probe(c, path, mtime, Some((artist, title)));
            &&& found_tags(after.entries, path, mtime) == Some((artist, title))
            &&& shown_tags(after.entries, path, mtime) == tags_text(artist, title, path)
            &&& after_probe(after, path, mtime, None) == after
        }),
        found_tags(after_probe(c, path, mtime, None).entries, path, mtime) == Some((""@, ""@)),
{
    law_store_lookup(c.entries, EntryV { path, mtime, artist, title }, path, mtime);
    law_store_lookup(c.entries, EntryV { path, mtime, artist: ""@, title: ""@ }, path, mtime);
}

/// A stored entry counts under the path that is its key, with the artist, the title and the time
/// that stand there; one without tags does not count.
pub proof fn law_stored_entry_counts(k: Seq<char>, e: JsonV, files: Seq<Seq<char>>, n: i64)
    requires
        !k.contains(':'),
        n > 0,
        e.i64_at("m"@) == Some(n),
    ensures
        e.str_or("a"@, ""@).len() > 0 ==> stored_entry(k, e, files) == Some(
            EntryV { path: k, mtime: n, artist: e.str_or("a"@, ""@), title: e.str_or("t"@, ""@) },
        ),
        e.get("a"@) is None && e.get("t"@) is None ==> stored_entry(k, e, files) is None,
{
    reveal_strlit("");
    crate::text::lemma_char_pos(k, ':');
    if e.str_or("a"@, ""@).len() > 0 {
        assert(e.get("a"@) is Some);
    }
}

/// A file is asked for its format's tags, in JSON.
pub proof fn law_probe_asks_for_tags(path: Seq<char>)
    ensures
        probe_arguments(path).last() == path,
        probe_arguments(path).contains("-show_format"@),
        probe_arguments(path).take(2) == seq!["-v"@, "quiet"@],
        exists|i: int|
            0 <= i < probe_arguments(path).len() - 1 && #[trigger] probe_arguments(path)[i] == "-print_format"@
                && probe_arguments(path)[i + 1] == "json"@,
{
    let a = probe_arguments(path);
    assert(a.take(2) =~= seq!["-v"@, "quiet"@]);
    assert(a[2] == "-print_format"@ && a[3] == "json"@ && a[4] == "-show_format"@);
}

/// What the probe prints is read as an object with the tags; what is no such text has none. The
/// paths of a store that has the time of change in its keys are what stands before the last colon.
pub proof fn law_probe_is_read(out: Seq<u8>, v: JsonV, o: Seq<(Seq<char>, JsonV)>, path: Seq<char>, stamp: Seq<char>)
    requires
        !stamp.contains(':'),
    ensures
        json_parsed_bytes(out) == Ok::<JsonV, Seq<char>>(v) ==> probed(out) == tags_in(v),
        json_parsed_bytes(out) is Err ==> probed(out) is None,
        candidates(o.push((path.push(':') + stamp, v))) == candidates(o).push(path),
        candidates(o.push((stamp, v))) == candidates(o),
        candidates(Seq::empty()).len() == 0,
{
    crate::text::law_cut_last(path, ':', stamp);
    assert(o.push((path.push(':') + stamp, v)).drop_last() =~= o);
    assert(o.push((stamp, v)).drop_last() =~= o);
}

} // verus!
