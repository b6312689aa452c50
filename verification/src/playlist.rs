//! Saved playlists: one JSON file each.

use vstd::prelude::*;
use crate::json::{
    alike, json_obj, json_parsed, json_pretty, json_str, member_of, members, names_ascend, orderly, parse_or_null,
    parsed_or_null, plain, reads_alike, reads_as, render_pretty, value_stored, Json, JsonV,
};
use crate::order::{in_order, law_sorted, lemma_sorted_map, name_key, name_sort_key, sort_items, sorted_by, KeyV, SortKey};
use crate::paths::{extension, extension_of_name, stem, stem_of_name};
use crate::queue::{
    all_fresh, all_numeric, decode_items, encode_items, fresh, items_in, items_json, items_view, lemma_items_alike,
    lemma_items_orderly, same_tracks, with_paths, ItemV, QueueItem,
};
use crate::text::{
    cat2, holds, lemma_filter_take, list_has, lower, lowered, opt_view, same, starts, starts_with, views,
};

verus! {

/// The name of the file that a playlist is saved in.
pub fn file(name: &str) -> (s: String)
    ensures
        s@ == name@ + ".json"@,
{
    cat2(name, ".json")
}

/// A playlist as JSON; `now` is the time of saving.
pub open spec fn list_json(name: Seq<char>, items: Seq<ItemV>, now: Seq<char>) -> JsonV {
    JsonV::Obj(
        seq![
            ("created"@, JsonV::Str(now)),
            ("modified"@, JsonV::Str(now)),
            ("name"@, JsonV::Str(name)),
            ("tracks"@, items_json(items)),
        ],
    )
}

/// The text that a playlist is saved as; `now` is the time of saving. Its tracks read back
/// from it, and fresh ones as they are.
pub fn save(name: &str, items: &Vec<QueueItem>, now: &str) -> (s: String)
    ensures
        s@ == json_pretty(value_stored(list_json(name@, items_view(items@), now@))),
        plain(list_json(name@, items_view(items@), now@), 100) ==> reads_as(
            s@,
            list_json(name@, items_view(items@), now@),
        ),
        all_fresh(items_view(items@)) ==> reads_as(s@, list_json(name@, items_view(items@), now@)),
        all_numeric(items_view(items@)) ==> same_tracks(saved_items(s@), with_paths(items_view(items@))),
{
    let mut o: Vec<(String, Json)> = Vec::new();
    o.push(member_of("created", json_str(now)));
    o.push(member_of("modified", json_str(now)));
    o.push(member_of("name", json_str(name)));
    o.push(member_of("tracks", encode_items(items)));
    assert(members(o@) == list_json(name@, items_view(items@), now@)->Obj_0);
    let s = render_pretty(&json_obj(o));
    proof {
        let all = items_view(items@);
        if all_fresh(all) {
            assert forall|i: int| 0 <= i < all.len() implies (#[trigger] all[i]).duration == "0.0"@ by {
                assert(fresh(all[i]));
            }
            law_list_is_plain(name@, all, now@);
        }
        if all_numeric(all) {
            lemma_list_orderly(name@, all, now@);
            law_saved_list_loads(name@, all, now@, s@);
        }
    }
    s
}

/// The tracks of a saved playlist that have a path, whether or not their files are there.
pub open spec fn saved_items(raw: Seq<char>) -> Seq<ItemV> {
    items_in(parsed_or_null(raw).items_at("tracks"@))
}

/// The tracks of a saved playlist. Whoever holds the disk then says which are there. Fresh
/// ones are read as they were written.
pub fn load(raw: &str) -> (r: Vec<QueueItem>)
    ensures
        items_view(r@) == saved_items(raw@),
        all_numeric(items_view(r@)),
        forall|name: Seq<char>, items: Seq<ItemV>, now: Seq<char>|
            reads_as(raw@, #[trigger] list_json(name, items, now)) && all_fresh(items) ==> items_view(r@) == items,
{
    proof {
        assert forall|name: Seq<char>, items: Seq<ItemV>, now: Seq<char>|
            reads_as(raw@, #[trigger] list_json(name, items, now)) implies parsed_or_null(raw@).get("tracks"@)
            == Some(items_json(items)) by {
            lemma_tracks_of(name, items, now);
        }
    }
    let v = parse_or_null(raw);
    match v.arr_at("tracks") {
        Some(a) => decode_items(a),
        None => {
            let r: Vec<QueueItem> = Vec::new();
            assert(items_view(r@) == items_in(Seq::<JsonV>::empty()));
            r
        },
    }
}

/// The key by which names are ordered: the name itself.
pub open spec fn plain_key() -> spec_fn(Seq<char>) -> KeyV {
    |n: Seq<char>| name_key(n)
}

/// The stems of the files that are playlists.
pub open spec fn list_stems(files: Seq<Seq<char>>) -> Seq<Seq<char>>
    decreases files.len(),
{
    if files.len() == 0 {
        Seq::empty()
    } else if extension(files.last()) == Some("json"@) {
        list_stems(files.drop_last()).push(stem(files.last()))
    } else {
        list_stems(files.drop_last())
    }
}

/// The names of the playlists among the files of their directory, in order.
pub open spec fn list_names(files: Seq<Seq<char>>) -> Seq<Seq<char>> {
    sorted_by(list_stems(files), plain_key())
}

/// The names of the playlists among the files of their directory.
pub fn names(files: &Vec<String>) -> (r: Vec<String>)
    ensures
        views(r@) == list_names(views(files@)),
{
    let mut out: Vec<String> = Vec::new();
    let mut keys: Vec<SortKey> = Vec::new();
    let ghost raw = |s: String| name_key(s@);
    let ghost all = views(files@);
    assert(views(out@) == list_stems(all.take(0)));
    for i in 0..files.len()
        invariant
            all == views(files@),
            raw == (|s: String| name_key(s@)),
            keys.len() == out.len(),
            forall|j: int| 0 <= j < out.len() ==> (#[trigger] keys@[j])@ == raw(out@[j]),
            views(out@) == list_stems(all.take(i as int)),
    {
        proof {
            assert(all.take(i + 1).drop_last() == all.take(i as int));
            assert(all.take(i + 1).last() == files@[i as int]@);
        }
        let ghost before = views(out@);
        let is_list = match extension_of_name(files[i].as_str()) {
            Some(e) => same(e.as_str(), "json"),
            None => false,
        };
        if is_list {
            let n = stem_of_name(files[i].as_str());
            keys.push(name_sort_key(n.as_str()));
            out.push(n);
            assert(views(out@) == before.push(n@));
        }
    }
    assert(all.take(files.len() as int) == all);
    let ghost found = out@;
    sort_items(&mut out, keys, Ghost(raw));
    proof {
        let f = |s: String| s@;
        lemma_sorted_map(found, f, raw, plain_key());
        assert(found.map_values(f) == views(found));
        assert(sorted_by(found, raw).map_values(f) == views(sorted_by(found, raw)));
    }
    out
}

/// The names of the files that go when a playlist is deleted.
pub fn files_to_delete(name: &str) -> (r: Vec<String>)
    ensures
        views(r@) == seq![name@ + ".json"@, name@ + ".m3u"@],
{
    let mut r: Vec<String> = Vec::new();
    r.push(cat2(name, ".json"));
    r.push(cat2(name, ".m3u"));
    assert(views(r@) == seq![name@ + ".json"@, name@ + ".m3u"@]);
    r
}

/// Whether a playlist is deleted: any of its files was removed.
pub fn delete(removed: &Vec<bool>) -> (gone: bool)
    ensures
        gone == exists|i: int| 0 <= i < removed.len() && removed@[i],
{
    for i in 0..removed.len()
        invariant
            forall|j: int| 0 <= j < i ==> !removed@[j],
    {
        if removed[i] {
            assert(removed@[i as int]);
            return true;
        }
    }
    false
}

/// The first name that equals `low`, case aside.
pub open spec fn exact_name(all: Seq<Seq<char>>, low: Seq<char>) -> Option<Seq<char>>
    decreases all.len(),
{
    if all.len() == 0 {
        None
    } else if lower(all[0]) == low {
        Some(all[0])
    } else {
        exact_name(all.skip(1), low)
    }
}

/// The names that begin with `low`, case aside.
pub open spec fn names_with(all: Seq<Seq<char>>, low: Seq<char>) -> Seq<Seq<char>> {
    all.filter(|n: Seq<char>| starts(lower(n), low))
}

/// The playlist that is meant: the one of that very name, else the first of that name case
/// aside, else the only one whose name begins so.
pub open spec fn found_name(all: Seq<Seq<char>>, name: Seq<char>) -> Option<Seq<char>> {
    if holds(all, name) {
        Some(name)
    } else {
        match exact_name(all, lower(name)) {
            Some(n) => Some(n),
            None => if names_with(all, lower(name)).len() == 1 {
                Some(names_with(all, lower(name))[0])
            } else {
                None
            },
        }
    }
}

/// The playlist that is meant, among all names.
pub fn find(all: &Vec<String>, name: &str) -> (r: Option<String>)
    ensures
        opt_view(r) == found_name(views(all@), name@),
{
    if list_has(all, name) {
        return Some(name.to_owned());
    }
    let low = lowered(name);
    let ghost ns = views(all@);
    assert(ns.skip(0) == ns);
    for i in 0..all.len()
        invariant
            ns == views(all@),
            low@ == lower(name@),
            !holds(ns, name@),
            exact_name(ns, low@) == exact_name(ns.skip(i as int), low@),
    {
        proof {
            assert(ns.skip(i as int)[0] == all@[i as int]@);
            assert(ns.skip(i as int).skip(1) == ns.skip(i + 1));
        }
        if same(lowered(all[i].as_str()).as_str(), low.as_str()) {
            return Some(all[i].clone());
        }
    }
    let mut matches: Vec<String> = Vec::new();
    let ghost p = |n: Seq<char>| starts(lower(n), low@);
    proof {
        reveal(Seq::filter);
        assert(views(matches@) == ns.take(0).filter(p));
    }
    for i in 0..all.len()
        invariant
            ns == views(all@),
            p == (|n: Seq<char>| starts(lower(n), low@)),
            views(matches@) == ns.take(i as int).filter(p),
    {
        let ghost before = views(matches@);
        if starts_with(lowered(all[i].as_str()).as_str(), low.as_str()) {
            matches.push(all[i].clone());
            assert(views(matches@) == before.push(all@[i as int]@));
        }
        proof {
            lemma_filter_take(ns, p, i as int);
        }
    }
    assert(ns.take(all.len() as int) == ns);
    assert(views(matches@).len() == matches.len());
    if matches.len() == 1 {
        assert(views(matches@)[0] == matches@[0]@);
        return Some(matches[0].clone());
    }
    None
}

// ---- laws ----

/// A playlist that is found is one of those that are there.
pub proof fn law_found_is_there(all: Seq<Seq<char>>, name: Seq<char>)
    ensures
        found_name(all, name) is Some ==> all.contains(found_name(all, name)->0),
{
    lemma_exact_is_there(all, lower(name));
    let p = |n: Seq<char>| starts(lower(n), lower(name));
    crate::text::lemma_filtered(all, p);
    if names_with(all, lower(name)).len() == 1 {
        assert(all.filter(p).contains(all.filter(p)[0]));
    }
}

proof fn lemma_exact_is_there(all: Seq<Seq<char>>, low: Seq<char>)
    ensures
        exact_name(all, low) is Some ==> all.contains(exact_name(all, low)->0) && lower(exact_name(all, low)->0)
            == low,
        exact_name(all, low) is None ==> forall|i: int| 0 <= i < all.len() ==> lower(#[trigger] all[i]) != low,
    decreases all.len(),
{
    if all.len() > 0 {
        let t = all.skip(1);
        lemma_exact_is_there(t, low);
        if lower(all[0]) != low {
            if exact_name(all, low) is Some {
                let x = exact_name(all, low)->0;
                let i = t.index_of(x);
                assert(all[i + 1] == x);
            } else {
                assert forall|i: int| 0 <= i < all.len() implies lower(#[trigger] all[i]) != low by {
                    if i > 0 {
                        assert(t[i - 1] == all[i]);
                    }
                }
            }
        } else {
            assert(all[0] == all[0]);
        }
    }
}

/// A playlist is always found by its own name, whatever the others are called.
pub proof fn law_own_name_finds(all: Seq<Seq<char>>, name: Seq<char>)
    requires
        all.contains(name),
    ensures
        found_name(all, name) == Some(name),
{
    let i = all.index_of(name);
    assert(all[i] == name);
}

/// A saved playlist is loaded again: every track that has a path comes back in its place,
/// with its path, its display, its title and its artist, whatever its duration reads as.
pub proof fn law_saved_list_loads(name: Seq<char>, items: Seq<ItemV>, now: Seq<char>, text: Seq<char>)
    requires
        reads_alike(text, list_json(name, items, now)),
    ensures
        same_tracks(saved_items(text), with_paths(items)),
{
    reveal_strlit("created");
    reveal_strlit("modified");
    reveal_strlit("name");
    reveal_strlit("tracks");
    reveal_with_fuel(crate::json::member, 5);
    assert("created"@.len() == 7 && "modified"@.len() == 8 && "name"@.len() == 4 && "tracks"@.len() == 6);
    let o = list_json(name, items, now)->Obj_0;
    let w = json_parsed(text)->Ok_0->Obj_0;
    assert forall|i: int| 0 <= i < 4 implies (#[trigger] w[i]).0 == o[i].0 && alike(w[i].1, o[i].1) by {
        assert(o[i].0 == o[i].0);
    }
    assert(w[0].0 == o[0].0 && w[1].0 == o[1].0 && w[2].0 == o[2].0 && w[3].0 == o[3].0);
    assert(crate::json::member(w, "tracks"@) == Some(w[3].1));
    lemma_items_alike(w[3].1->Arr_0, items);
}

proof fn lemma_tracks_of(name: Seq<char>, items: Seq<ItemV>, now: Seq<char>)
    ensures
        list_json(name, items, now).get("tracks"@) == Some(items_json(items)),
{
    reveal_strlit("created");
    reveal_strlit("modified");
    reveal_strlit("name");
    reveal_strlit("tracks");
    reveal_with_fuel(crate::json::member, 5);
    assert("created"@.len() == 7 && "modified"@.len() == 8 && "name"@.len() == 4 && "tracks"@.len() == 6);
}

proof fn lemma_list_orderly(name: Seq<char>, items: Seq<ItemV>, now: Seq<char>)
    requires
        all_numeric(items),
    ensures
        orderly(list_json(name, items, now), 100),
{
    reveal_strlit("created");
    reveal_strlit("modified");
    reveal_strlit("name");
    reveal_strlit("tracks");
    reveal_with_fuel(crate::order::text_le, 3);
    let o = list_json(name, items, now)->Obj_0;
    assert(names_ascend(o));
    lemma_items_orderly(items, 99);
    assert(orderly(o[3].1, 99));
    assert(orderly(o[0].1, 99) && orderly(o[1].1, 99) && orderly(o[2].1, 99));
}

/// A playlist of tracks of no known duration is written so that it can be read back.
pub proof fn law_list_is_plain(name: Seq<char>, items: Seq<ItemV>, now: Seq<char>)
    requires
        forall|i: int| 0 <= i < items.len() ==> (#[trigger] items[i]).duration == "0.0"@,
    ensures
        plain(list_json(name, items, now), 100),
{
    reveal_strlit("created");
    reveal_strlit("modified");
    reveal_strlit("name");
    reveal_strlit("tracks");
    reveal_with_fuel(crate::order::text_le, 3);
    let o = list_json(name, items, now)->Obj_0;
    assert(names_ascend(o));
    crate::queue::lemma_items_plain(items, 99);
    assert(plain(o[3].1, 99));
    assert(plain(o[0].1, 99) && plain(o[1].1, 99) && plain(o[2].1, 99));
}

/// The names of the playlists are in order.
pub proof fn law_names_in_order(files: Seq<Seq<char>>)
    ensures
        in_order(list_names(files), plain_key()),
        list_names(files).len() == list_stems(files).len(),
{
    law_sorted(list_stems(files), plain_key());
}

/// The playlists are the files that end with `.json`, each by the rest of its name; no other file
/// is one.
pub proof fn law_lists_are_their_files(files: Seq<Seq<char>>, name: Seq<char>)
    ensures
        list_names(files).contains(name) <==> exists|i: int|
            0 <= i < files.len() && extension(#[trigger] files[i]) == Some("json"@) && stem(files[i]) == name,
        files.contains(name + ".json"@) && name.len() > 0 && !name.contains('/') ==> list_names(files).contains(name),
{
    broadcast use vstd::seq_lib::group_to_multiset_ensures;

    law_sorted(list_stems(files), plain_key());
    lemma_stems(files, name);
    assert(list_names(files).contains(name) <==> list_names(files).to_multiset().count(name) > 0);
    assert(list_stems(files).contains(name) <==> list_stems(files).to_multiset().count(name) > 0);
    if files.contains(name + ".json"@) && name.len() > 0 && !name.contains('/') {
        reveal_strlit("json");
        reveal_strlit(".json");
        reveal_strlit(".");
        assert("."@ + "json"@ =~= ".json"@);
        assert(name + ".json"@ =~= name + "."@ + "json"@);
        assert(!"json"@.contains('/') && !"json"@.contains('.'));
        crate::paths::law_file_is_named(Seq::empty(), name, "json"@);
        let i = files.index_of(name + ".json"@);
        assert(extension(files[i]) == Some("json"@));
    }
}

proof fn lemma_stems(files: Seq<Seq<char>>, name: Seq<char>)
    ensures
        list_stems(files).contains(name) <==> exists|i: int|
            0 <= i < files.len() && extension(#[trigger] files[i]) == Some("json"@) && stem(files[i]) == name,
    decreases files.len(),
{
    if files.len() > 0 {
        let f = files.drop_last();
        lemma_stems(f, name);
        let a = list_stems(f);
        let all = list_stems(files);
        let n = files.len() - 1;
        assert(files[n] == files.last());
        if a.contains(name) {
            let i = choose|i: int| 0 <= i < f.len() && extension(#[trigger] f[i]) == Some("json"@) && stem(f[i]) == name;
            assert(files[i] == f[i]);
            assert(all[a.index_of(name)] == name);
        }
        if extension(files.last()) == Some("json"@) && stem(files.last()) == name {
            assert(all[a.len() as int] == name);
        }
        if all.contains(name) && !a.contains(name) {
            let k = all.index_of(name);
            if k < a.len() {
                assert(a[k] == name);
            }
        }
        assert forall|i: int| 0 <= i < files.len() && extension(#[trigger] files[i]) == Some("json"@) && stem(files[i])
            == name implies all.contains(name) by {
            if i < n {
                assert(f[i] == files[i]);
            }
        }
    }
}

/// A playlist is found by its name in any case; else by the beginning of its name, where that
/// means only one.
pub proof fn law_list_is_found(all: Seq<Seq<char>>, name: Seq<char>, i: int)
    requires
        0 <= i < all.len(),
    ensures
        lower(all[i]) == lower(name) ==> found_name(all, name) is Some && lower(found_name(all, name)->0) == lower(name),
        (forall|j: int| 0 <= j < all.len() && j != i ==> !starts(lower(#[trigger] all[j]), lower(name))) && starts(
            lower(all[i]),
            lower(name),
        ) ==> found_name(all, name) == Some(all[i]),
        (forall|j: int| 0 <= j < all.len() ==> !starts(lower(#[trigger] all[j]), lower(name))) ==> found_name(all, name) is None,
        forall|j: int|
            0 <= j < all.len() && j != i && starts(lower(#[trigger] all[j]), lower(name)) && starts(lower(all[i]), lower(name))
                && (forall|k: int| 0 <= k < all.len() ==> lower(#[trigger] all[k]) != lower(name)) ==> found_name(all, name) is None,
{
    lemma_exact(all, lower(name));
    let p = |n: Seq<char>| starts(lower(n), lower(name));
    crate::text::lemma_filtered(all, p);
    assert forall|j: int| 0 <= j < all.len() && lower(#[trigger] all[j]) == lower(name) implies starts(
        lower(all[j]),
        lower(name),
    ) by {
        assert(lower(all[j]).subrange(0, lower(name).len() as int) =~= lower(name));
    }
    if holds(all, name) {
        let k = choose|k: int| 0 <= k < all.len() && all[k] == name;
        assert(lower(all[k]) == lower(name));
    }
    if (forall|j: int| 0 <= j < all.len() && j != i ==> !starts(lower(#[trigger] all[j]), lower(name))) && p(all[i]) {
        lemma_filter_one(all, p, i);
        if exact_name(all, lower(name)) is Some {
            let e = exact_name(all, lower(name))->0;
            let k = choose|k: int| 0 <= k < all.len() && #[trigger] all[k] == e;
            assert(starts(lower(all[k]), lower(name)));
        }
    }
    if forall|j: int| 0 <= j < all.len() ==> !starts(lower(#[trigger] all[j]), lower(name)) {
        if names_with(all, lower(name)).len() > 0 {
            let x = names_with(all, lower(name))[0];
            assert(all.filter(p).contains(x));
            let k = all.index_of(x);
            assert(starts(lower(all[k]), lower(name)));
        }
        if exact_name(all, lower(name)) is Some {
            let e = exact_name(all, lower(name))->0;
            let k = choose|k: int| 0 <= k < all.len() && #[trigger] all[k] == e;
            assert(starts(lower(all[k]), lower(name)));
        }
    }
    assert forall|j: int|
        0 <= j < all.len() && j != i && starts(lower(#[trigger] all[j]), lower(name)) && starts(lower(all[i]), lower(name)) && (
        forall|k: int| 0 <= k < all.len() ==> lower(#[trigger] all[k]) != lower(name)) implies found_name(all, name) is None by {
        if i < j {
            lemma_filter_two(all, p, i, j);
        } else {
            lemma_filter_two(all, p, j, i);
        }
    }
}

proof fn lemma_exact(all: Seq<Seq<char>>, low: Seq<char>)
    ensures
        match exact_name(all, low) {
            Some(n) => lower(n) == low && exists|k: int| 0 <= k < all.len() && #[trigger] all[k] == n,
            None => forall|k: int| 0 <= k < all.len() ==> lower(#[trigger] all[k]) != low,
        },
    decreases all.len(),
{
    if all.len() > 0 {
        let rest = all.skip(1);
        if lower(all[0]) == low {
            assert(all[0] == all[0]);
        } else {
            lemma_exact(rest, low);
            match exact_name(rest, low) {
                Some(n) => {
                    let k = choose|k: int| 0 <= k < rest.len() && #[trigger] rest[k] == n;
                    assert(all[k + 1] == n);
                },
                None => {
                    assert forall|k: int| 0 <= k < all.len() implies lower(#[trigger] all[k]) != low by {
                        if k > 0 {
                            assert(rest[k - 1] == all[k]);
                        }
                    }
                },
            }
        }
    }
}

proof fn lemma_filter_one(s: Seq<Seq<char>>, p: spec_fn(Seq<char>) -> bool, i: int)
    requires
        0 <= i < s.len(),
        p(s[i]),
        forall|j: int| 0 <= j < s.len() && j != i ==> !p(#[trigger] s[j]),
    ensures
        s.filter(p) == seq![s[i]],
    decreases s.len(),
{
    reveal(Seq::filter);
    let f = s.drop_last();
    if i == s.len() - 1 {
        assert forall|j: int| 0 <= j < f.len() implies !p(#[trigger] f[j]) by {
            assert(f[j] == s[j]);
        }
        lemma_filter_none(f, p);
        assert(s.filter(p) =~= seq![s[i]]);
    } else {
        assert forall|j: int| 0 <= j < f.len() && j != i implies !p(#[trigger] f[j]) by {
            assert(f[j] == s[j]);
        }
        lemma_filter_one(f, p, i);
        assert(!p(s[s.len() - 1]));
    }
}

proof fn lemma_filter_none(s: Seq<Seq<char>>, p: spec_fn(Seq<char>) -> bool)
    requires
        forall|j: int| 0 <= j < s.len() ==> !p(#[trigger] s[j]),
    ensures
        s.filter(p).len() == 0,
    decreases s.len(),
{
    reveal(Seq::filter);
    if s.len() > 0 {
        let f = s.drop_last();
        assert forall|j: int| 0 <= j < f.len() implies !p(#[trigger] f[j]) by {
            assert(f[j] == s[j]);
        }
        lemma_filter_none(f, p);
        assert(!p(s[s.len() - 1]));
    }
}

proof fn lemma_filter_two(s: Seq<Seq<char>>, p: spec_fn(Seq<char>) -> bool, i: int, j: int)
    requires
        0 <= i < j < s.len(),
        p(s[i]),
        p(s[j]),
    ensures
        s.filter(p).len() >= 2,
    decreases s.len(),
{
    reveal(Seq::filter);
    let f = s.drop_last();
    if j < s.len() - 1 {
        lemma_filter_two(f, p, i, j);
    } else {
        crate::text::lemma_filtered(f, p);
        assert(f[i] == s[i]);
        assert(f.contains(f[i]));
        assert(f.filter(p).contains(f[i]));
    }
}

} // verus!
