//! Casting local files to a speaker through the DLNA server that serves them.
//!
//! The speaker browses the server: first the server is found among its music sources, then
//! the track in the server's tree, then the track is queued by its two identifiers, which
//! are sent as they stand.

use vstd::prelude::*;
use crate::heos::{all_items, clamped, items_of};
use crate::json::{jsons, Json, JsonV};
use crate::nums::{dec, dec_i64, dec_u64};
use crate::paths::{byte_len, byte_len_of, file_name, file_name_of, file_stem, file_stem_of, join_path, join_paths, law_file_is_named, parts, parts_of};
use crate::text::{
    all_ascii, at, cat2, cat4, cat5, cat6, contains, has, is_text, keep_alnum, law_has_is_contains, lemma_alnum_adds, lemma_filter_take, lemma_filtered, lemma_lower_adds, lower, lowered, only_alnum,
    opt_view, pair_view, same, starts, starts_with, upper, uppered, views,
};

verus! {

/// A text reduced to its letters and digits in lower case.
pub open spec fn normal(s: Seq<char>) -> Seq<char> {
    only_alnum(lower(s))
}

/// A text reduced to its letters and digits in lower case.
pub fn norm(s: &str) -> (r: String)
    ensures
        r@ == normal(s@),
{
    keep_alnum(lowered(s).as_str())
}

// ---- the server ----

/// Whether a source bears the server's name.
pub open spec fn is_server_name(v: JsonV) -> bool {
    has(upper(v.str_or("name"@, ""@)), "VANGUARDA"@)
}

/// The number of the first source that is the server: `None` where none is, else its
/// number, if it has one.
pub open spec fn server_in(items: Seq<JsonV>, typed: bool) -> Option<Option<i64>>
    decreases items.len(),
{
    if items.len() == 0 {
        None
    } else if (typed ==> items[0].str_at("type"@) == Some("heos_server"@)) && is_server_name(items[0]) {
        Some(items[0].i64_at("sid"@))
    } else {
        server_in(items.skip(1), typed)
    }
}

/// Which number the server has: as the music sources list it, and only where they do not,
/// as the local music container does.
pub open spec fn server_sid(sources: Seq<JsonV>, local: Seq<JsonV>) -> Option<i64> {
    match server_in(sources, true) {
        Some(sid) => sid,
        None => match server_in(local, false) {
            Some(sid) => sid,
            None => None,
        },
    }
}

/// The request for the music sources.
pub fn sources_uri() -> (s: String)
    ensures
        s@ == "heos://browse/get_music_sources"@,
{
    "heos://browse/get_music_sources".to_owned()
}

/// The request for the local music container.
pub fn local_music_uri() -> (s: String)
    ensures
        s@ == "heos://browse/browse?sid=1024"@,
{
    "heos://browse/browse?sid=1024".to_owned()
}

fn find_server(items: &Vec<Json>, typed: bool) -> (r: Option<Option<i64>>)
    ensures
        r == server_in(jsons(items@), typed),
{
    let ghost all = jsons(items@);
    assert(all.skip(0) == all);
    for i in 0..items.len()
        invariant
            all == jsons(items@),
            server_in(all, typed) == server_in(all.skip(i as int), typed),
    {
        proof {
            assert(all.skip(i as int)[0] == items@[i as int]@);
            assert(all.skip(i as int).skip(1) == all.skip(i + 1));
        }
        let v = &items[i];
        if (!typed || is_text(v.str_at("type"), "heos_server")) && contains(
            uppered(v.str_or("name", "").as_str()).as_str(),
            "VANGUARDA",
        ) {
            return Some(v.i64_at("sid"));
        }
    }
    None
}

/// What the music sources say of the server: `None` leaves the question to the local music
/// container.
pub fn sid_in_sources(objs: &Vec<Json>) -> (r: Option<Option<i64>>)
    ensures
        r == server_in(all_items(jsons(objs@)), true),
{
    find_server(&items_of(objs), true)
}

/// The number of the server, from the replies to both requests. The second request is not
/// needed where the music sources list the server.
pub fn find_dlna_sid(sources: &Vec<Json>, local: &Vec<Json>) -> (r: Option<i64>)
    ensures
        r == server_sid(all_items(jsons(sources@)), all_items(jsons(local@))),
{
    match sid_in_sources(sources) {
        Some(sid) => sid,
        None => match find_server(&items_of(local), false) {
            Some(sid) => sid,
            None => None,
        },
    }
}

// ---- one container ----

/// Listing the children of a container, page by page: eight pages of fifty at most. A
/// server that gives none that way is asked once more for the whole.
pub struct Listing {
    pub items: Vec<Json>,
    pub start: u32,
    pub rounds: u32,
    pub whole: bool,
}

/// The model of a [`Listing`].
#[verifier::ext_equal]
pub struct ListingV {
    pub items: Seq<JsonV>,
    pub start: int,
    pub rounds: int,
    pub whole: bool,
}

impl View for Listing {
    type V = ListingV;

    open spec fn view(&self) -> ListingV {
        ListingV {
            items: jsons(self.items@),
            start: self.start as int,
            rounds: self.rounds as int,
            whole: self.whole,
        }
    }
}

/// How many elements the last of the payloads has.
pub open spec fn last_count(objs: Seq<JsonV>) -> nat
    decreases objs.len(),
{
    if objs.len() == 0 {
        0
    } else {
        match objs.last().arr_at("payload"@) {
            Some(a) => a.len(),
            None => last_count(objs.drop_last()),
        }
    }
}

fn last_count_of(objs: &Vec<Json>) -> (n: usize)
    ensures
        n == last_count(jsons(objs@)),
{
    let mut n: usize = 0;
    let ghost all = jsons(objs@);
    assert(all.take(0) == Seq::<JsonV>::empty());
    for i in 0..objs.len()
        invariant
            all == jsons(objs@),
            n == last_count(all.take(i as int)),
    {
        proof {
            assert(all.take(i + 1).drop_last() == all.take(i as int));
            assert(all.take(i + 1).last() == objs@[i as int]@);
        }
        match objs[i].arr_at("payload") {
            Some(a) => {
                assert(jsons(a@).len() == a.len());
                n = a.len();
            },
            None => {},
        }
    }
    assert(all.take(objs.len() as int) == all);
    n
}

impl ListingV {
    /// A listing that begins.
    pub open spec fn fresh() -> ListingV {
        ListingV { items: Seq::empty(), start: 0, rounds: 0, whole: false }
    }

    /// What a listing keeps: pages are counted in step.
    pub open spec fn wf(self) -> bool {
        &&& 0 <= self.rounds <= 8
        &&& self.start == 50 * self.rounds
    }

    /// The listing with replies taken, and whether it is to be asked on.
    pub open spec fn taken(self, objs: Seq<JsonV>) -> (ListingV, bool) {
        let items = self.items + all_items(objs);
        if self.whole {
            (ListingV { items, ..self }, false)
        } else if last_count(objs) < 50 || self.rounds >= 7 {
            (ListingV { items, whole: items.len() == 0, ..self }, items.len() == 0)
        } else {
            (ListingV { items, start: self.start + 50, rounds: self.rounds + 1, ..self }, true)
        }
    }

    /// The request that is due.
    pub open spec fn request(self, sid: i64, cid: Seq<char>) -> Seq<char> {
        let base = "heos://browse/browse?sid="@ + dec(sid as int) + "&cid="@ + cid;
        if self.whole {
            base
        } else {
            base + "&range="@ + dec(self.start) + ",50"@
        }
    }
}

impl Listing {
    /// A listing that begins.
    pub fn begin() -> (l: Listing)
        ensures
            l@ == ListingV::fresh(),
            l@.wf(),
    {
        let l = Listing { items: Vec::new(), start: 0, rounds: 0, whole: false };
        assert(l@.items == Seq::<JsonV>::empty());
        l
    }

    /// The request that is due.
    pub fn uri(&self, sid: i64, cid: &str) -> (s: String)
        ensures
            s@ == self@.request(sid, cid@),
    {
        let base = cat4("heos://browse/browse?sid=", dec_i64(sid).as_str(), "&cid=", cid);
        if self.whole {
            base
        } else {
            cat4(base.as_str(), "&range=", dec_u64(self.start as u64).as_str(), ",50")
        }
    }

    /// Takes the replies to the request; says whether another one is due.
    pub fn dlna_children(&mut self, objs: &Vec<Json>) -> (more: bool)
        requires
            old(self)@.wf(),
        ensures
            final(self)@ == old(self)@.taken(jsons(objs@)).0,
            more == old(self)@.taken(jsons(objs@)).1,
            final(self)@.wf(),
    {
        let mut got = items_of(objs);
        let n: usize = last_count_of(objs);
        let ghost before = self@.items;
        let ghost new = jsons(got@);
        self.items.append(&mut got);
        assert(self@.items == before + new);
        assert(self@.items.len() == self.items.len());
        if self.whole {
            return false;
        }
        if n < 50 || self.rounds >= 7 {
            self.whole = self.items.len() == 0;
            return self.whole;
        }
        self.start = self.start + 50;
        self.rounds = self.rounds + 1;
        true
    }
}

// ---- the search ----

/// The search for a track: what it is looked for by, how many containers may still be
/// opened, and which are waiting, the next one last.
pub struct Search {
    pub stem: String,
    pub crumbs: Vec<String>,
    pub budget: u32,
    pub stack: Vec<String>,
}

/// The model of a [`Search`].
#[verifier::ext_equal]
pub struct SearchV {
    pub stem: Seq<char>,
    pub crumbs: Seq<Seq<char>>,
    pub budget: int,
    pub stack: Seq<Seq<char>>,
}

impl View for Search {
    type V = SearchV;

    open spec fn view(&self) -> SearchV {
        SearchV {
            stem: self.stem@,
            crumbs: views(self.crumbs@),
            budget: self.budget as int,
            stack: views(self.stack@),
        }
    }
}

/// The file stem of a path, empty where it has none.
pub open spec fn stem_text(path: Seq<char>) -> Seq<char> {
    match file_stem(path) {
        Some(s) => s,
        None => ""@,
    }
}

fn stem_text_of(path: &str) -> (r: String)
    ensures
        r@ == stem_text(path@),
{
    match file_stem_of(path) {
        Some(s) => s,
        None => "".to_owned(),
    }
}

/// The parts of a path that lead to it, reduced, but for the short ones.
pub open spec fn crumbs_of(path: Seq<char>) -> Seq<Seq<char>> {
    let p = parts(path);
    Seq::new(p.len(), |i: int| normal(p[i])).filter(|t: Seq<char>| byte_len(t) > 2)
}

fn read_crumbs(path: &str) -> (r: Vec<String>)
    ensures
        views(r@) == crumbs_of(path@),
{
    let p = parts_of(path);
    let ghost all = Seq::new(parts(path@).len(), |i: int| normal(parts(path@)[i]));
    let ghost long = |t: Seq<char>| byte_len(t) > 2;
    let mut r: Vec<String> = Vec::new();
    proof {
        reveal(Seq::filter);
        assert(all.take(0).filter(long) == Seq::<Seq<char>>::empty());
        assert(parts(path@).len() == p.len());
    }
    for i in 0..p.len()
        invariant
            views(p@) == parts(path@),
            all == Seq::new(parts(path@).len(), |i: int| normal(parts(path@)[i])),
            all.len() == p.len(),
            long == (|t: Seq<char>| byte_len(t) > 2),
            views(r@) == all.take(i as int).filter(long),
    {
        let n = norm(p[i].as_str());
        let ghost before = views(r@);
        assert(views(p@)[i as int] == p@[i as int]@);
        assert(all[i as int] == n@);
        if byte_len_of(n.as_str()) > 2 {
            r.push(n);
            assert(views(r@) == before.push(n@));
        }
        proof {
            lemma_filter_take(all, long, i as int);
        }
    }
    assert(all.take(p.len() as int) == all);
    r
}

/// The search for a track that begins; `None` for one whose name is too short to be told
/// from others.
pub open spec fn search_for(target: Seq<char>) -> Option<SearchV> {
    let stem = normal(stem_text(target));
    if byte_len(stem) < 3 {
        None
    } else {
        Some(SearchV { stem, crumbs: crumbs_of(target), budget: 40, stack: seq!["1"@, "64"@] })
    }
}

/// Whether two reduced names mean the same track: one is part of the other.
pub open spec fn akin(a: Seq<char>, b: Seq<char>) -> bool {
    has(a, b) || has(b, a)
}

/// Whether a child is the track that is looked for.
pub open spec fn is_track(v: JsonV, stem: Seq<char>) -> bool {
    let name = normal(v.str_or("name"@, ""@));
    &&& v.str_at("type"@) == Some("song"@) || v.str_at("playable"@) == Some("yes"@)
    &&& name.len() > 0
    &&& akin(name, stem)
    &&& v.str_at("mid"@) is Some
}

/// The media identifier of the first child that is the track.
pub open spec fn track_in(kids: Seq<JsonV>, stem: Seq<char>) -> Option<Seq<char>>
    decreases kids.len(),
{
    if kids.len() == 0 {
        None
    } else if is_track(kids[0], stem) {
        kids[0].str_at("mid"@)
    } else {
        track_in(kids.skip(1), stem)
    }
}

/// Whether a container's name is among the parts of the path.
pub open spec fn on_path(v: JsonV, crumbs: Seq<Seq<char>>) -> bool {
    let name = normal(v.str_or("name"@, ""@));
    exists|i: int| 0 <= i < crumbs.len() && akin(name, #[trigger] crumbs[i])
}

/// The containers among the children that are on the path, or that are not.
pub open spec fn containers(kids: Seq<JsonV>, crumbs: Seq<Seq<char>>, on: bool) -> Seq<Seq<char>>
    decreases kids.len(),
{
    if kids.len() == 0 {
        Seq::empty()
    } else {
        let front = containers(kids.drop_last(), crumbs, on);
        let v = kids.last();
        match v.str_at("cid"@) {
            Some(cid) => if v.str_at("container"@) == Some("yes"@) && on_path(v, crumbs) == on {
                front.push(cid)
            } else {
                front
            },
            None => front,
        }
    }
}

impl SearchV {
    /// The search after a container without the track: its containers wait on top, those on
    /// the path above the others, so that they are opened first. Of either sort the one that
    /// is listed last is opened first.
    pub open spec fn gone_through(self, kids: Seq<JsonV>) -> SearchV {
        SearchV {
            stack: self.stack + containers(kids, self.crumbs, false) + containers(kids, self.crumbs, true),
            ..self
        }
    }
}

fn any_crumb(name: &str, crumbs: &Vec<String>) -> (r: bool)
    ensures
        r == exists|i: int| 0 <= i < crumbs.len() && akin(name@, #[trigger] views(crumbs@)[i]),
{
    for i in 0..crumbs.len()
        invariant
            forall|j: int| 0 <= j < i ==> !akin(name@, #[trigger] views(crumbs@)[j]),
    {
        if contains(name, crumbs[i].as_str()) || contains(crumbs[i].as_str(), name) {
            assert(akin(name@, views(crumbs@)[i as int]));
            return true;
        }
        assert(!akin(name@, views(crumbs@)[i as int]));
    }
    false
}

fn push_text(v: &mut Vec<String>, s: String)
    ensures
        views(final(v)@) == views(old(v)@).push(s@),
{
    v.push(s);
    assert(views(v@) == views(old(v)@).push(s@));
}

impl Search {
    /// The search for a track that begins.
    pub fn begin(target: &str) -> (r: Option<Search>)
        ensures
            match r {
                Some(s) => search_for(target@) == Some(s@),
                None => search_for(target@) is None,
            },
    {
        let stem = norm(stem_text_of(target).as_str());
        if byte_len_of(stem.as_str()) < 3 {
            return None;
        }
        let mut stack: Vec<String> = Vec::new();
        stack.push("1".to_owned());
        stack.push("64".to_owned());
        assert(views(stack@) == seq!["1"@, "64"@]);
        Some(Search { stem, crumbs: read_crumbs(target), budget: 40, stack })
    }

    /// The container to open next; `None` where none is left, or enough were opened.
    pub fn next(&mut self) -> (r: Option<String>)
        ensures
            match r {
                Some(cid) => {
                    &&& old(self)@.stack.len() > 0
                    &&& old(self)@.budget > 0
                    &&& cid@ == old(self)@.stack.last()
                    &&& final(self)@ == (SearchV {
                        stack: old(self)@.stack.drop_last(),
                        budget: old(self)@.budget - 1,
                        ..old(self)@
                    })
                },
                None => {
                    &&& old(self)@.stack.len() == 0 || old(self)@.budget == 0
                    &&& final(self)@ == (SearchV {
                        stack: if old(self)@.stack.len() == 0 {
                            old(self)@.stack
                        } else {
                            old(self)@.stack.drop_last()
                        },
                        ..old(self)@
                    })
                },
            },
    {
        assert(self@.stack.len() == self.stack.len());
        match self.stack.pop() {
            Some(cid) => {
                assert(self@.stack == old(self)@.stack.drop_last());
                if self.budget == 0 {
                    return None;
                }
                self.budget = self.budget - 1;
                Some(cid)
            },
            None => None,
        }
    }

    /// Goes through the children of a container: the track's media identifier, if it is
    /// there; else their containers are put up to be opened.
    pub fn dlna_find(&mut self, kids: &Vec<Json>) -> (r: Option<String>)
        ensures
            opt_view(r) == track_in(jsons(kids@), old(self)@.stem),
            final(self)@ == match r {
                Some(_) => old(self)@,
                None => old(self)@.gone_through(jsons(kids@)),
            },
    {
        let ghost all = jsons(kids@);
        assert(all.skip(0) == all);
        for i in 0..kids.len()
            invariant
                all == jsons(kids@),
                self@ == old(self)@,
                track_in(all, self@.stem) == track_in(all.skip(i as int), self@.stem),
        {
            proof {
                assert(all.skip(i as int)[0] == kids@[i as int]@);
                assert(all.skip(i as int).skip(1) == all.skip(i + 1));
            }
            let v = &kids[i];
            if is_text(v.str_at("type"), "song") || is_text(v.str_at("playable"), "yes") {
                let name = norm(v.str_or("name", "").as_str());
                if !name.as_str().is_empty() && (contains(name.as_str(), self.stem.as_str()) || contains(
                    self.stem.as_str(),
                    name.as_str(),
                )) {
                    match v.str_at("mid") {
                        Some(m) => {
                            return Some(m.to_owned());
                        },
                        None => {},
                    }
                }
            }
        }
        let mut on: Vec<String> = Vec::new();
        let mut off: Vec<String> = Vec::new();
        let ghost crumbs = self@.crumbs;
        assert(views(on@) == containers(all.take(0), crumbs, true));
        assert(views(off@) == containers(all.take(0), crumbs, false));
        for i in 0..kids.len()
            invariant
                all == jsons(kids@),
                self@ == old(self)@,
                crumbs == self@.crumbs,
                views(on@) == containers(all.take(i as int), crumbs, true),
                views(off@) == containers(all.take(i as int), crumbs, false),
        {
            proof {
                assert(all.take(i + 1).drop_last() == all.take(i as int));
                assert(all.take(i + 1).last() == kids@[i as int]@);
            }
            let v = &kids[i];
            if is_text(v.str_at("container"), "yes") {
                match v.str_at("cid") {
                    Some(c) => {
                        let name = norm(v.str_or("name", "").as_str());
                        assert(crumbs.len() == self.crumbs.len());
                        if any_crumb(name.as_str(), &self.crumbs) {
                            assert(on_path(v@, crumbs));
                            push_text(&mut on, c.to_owned());
                        } else {
                            assert(!on_path(v@, crumbs));
                            push_text(&mut off, c.to_owned());
                        }
                    },
                    None => {},
                }
            }
        }
        assert(all.take(kids.len() as int) == all);
        let ghost first = views(off@);
        let ghost second = views(on@);
        let ghost below = self@.stack;
        self.stack.append(&mut off);
        assert(self@.stack == below + first);
        self.stack.append(&mut on);
        assert(self@.stack == below + first + second);
        None
    }
}

// ---- the cast ----

/// Where the file to cast stands for the server.
pub enum Place {
    /// It is served where it is.
    Served,
    /// A copy of it has to stand here.
    Copy(String),
    /// Its path names no file.
    NoName,
}

/// Whether a path is a directory or something below it.
pub open spec fn is_below(path: Seq<char>, root: Seq<char>) -> bool {
    path == root || starts(path, root + "/"@)
}

/// Whether a path is below what the server serves.
pub open spec fn is_served(path: Seq<char>, home: Seq<char>) -> bool {
    is_below(path, "/tmp/dlna"@) || is_below(path, home + "/Music"@)
}

fn stands_below(path: &str, root: &str) -> (r: bool)
    ensures
        r == is_below(path@, root@),
{
    same(path, root) || starts_with(path, cat2(root, "/").as_str())
}

/// Where the file to cast stands for the server.
pub fn cast_place(path: &str, home: &str) -> (r: Place)
    ensures
        match r {
            Place::Served => is_served(path@, home@),
            Place::Copy(to) => !is_served(path@, home@) && file_name(path@) is Some && to@ == join_path(
                "/tmp/dlna"@,
                file_name(path@)->0,
            ),
            Place::NoName => !is_served(path@, home@) && file_name(path@) is None,
        },
{
    if stands_below(path, "/tmp/dlna") || stands_below(path, cat2(home, "/Music").as_str()) {
        return Place::Served;
    }
    match file_name_of(path) {
        Some(n) => Place::Copy(join_paths("/tmp/dlna", n.as_str())),
        None => Place::NoName,
    }
}

/// Whether the file is to be copied: not where a copy of the same size is there.
pub fn must_copy(copy_exists: bool, copy_len: Option<u64>, len: Option<u64>) -> (r: bool)
    ensures
        r == !(copy_exists && (match copy_len {
            Some(n) => n,
            None => 0,
        }) == (match len {
            Some(n) => n,
            None => u64::MAX,
        })),
{
    let have: u64 = match copy_len {
        Some(n) => n,
        None => 0,
    };
    let want: u64 = match len {
        Some(n) => n,
        None => u64::MAX,
    };
    !(copy_exists && have == want)
}

/// A cast under way: for which player and how it is queued, the stem of the file, what is
/// known of the server and the track, and how often each was looked for.
pub struct Cast {
    pub pid: i64,
    pub aid: i64,
    pub stem: String,
    pub sid: i64,
    pub fresh: bool,
    pub server_asks: u32,
    pub track_asks: u32,
    pub cid: String,
    pub mid: String,
}

/// The model of a [`Cast`].
#[verifier::ext_equal]
pub struct CastV {
    pub pid: i64,
    pub aid: i64,
    pub stem: Seq<char>,
    pub sid: i64,
    pub fresh: bool,
    pub server_asks: int,
    pub track_asks: int,
    pub cid: Seq<char>,
    pub mid: Seq<char>,
}

impl View for Cast {
    type V = CastV;

    open spec fn view(&self) -> CastV {
        CastV {
            pid: self.pid,
            aid: self.aid,
            stem: self.stem@,
            sid: self.sid,
            fresh: self.fresh,
            server_asks: self.server_asks as int,
            track_asks: self.track_asks as int,
            cid: self.cid@,
            mid: self.mid@,
        }
    }
}

/// What came of a step of a cast.
pub enum CastEvent {
    /// The server was looked for; with its number comes whether the file is a fresh one.
    Server(Option<i64>, bool),
    /// The track was looked for; found, it has a container and a media identifier.
    Track(Option<(String, String)>),
    /// The speaker answered, with success or without.
    Answer(bool),
}

/// The model of a [`CastEvent`].
#[verifier::ext_equal]
pub enum CastEventV {
    Server(Option<i64>, bool),
    Track(Option<(Seq<char>, Seq<char>)>),
    Answer(bool),
}

impl View for CastEvent {
    type V = CastEventV;

    open spec fn view(&self) -> CastEventV {
        match self {
            CastEvent::Server(sid, fresh) => CastEventV::Server(*sid, *fresh),
            CastEvent::Track(t) => CastEventV::Track(pair_view(*t)),
            CastEvent::Answer(b) => CastEventV::Answer(*b),
        }
    }
}

/// The next step of a cast, each after a wait of so many seconds.
pub enum CastStep {
    /// Look for the server.
    FindServer(u64),
    /// Look for the track on the server of this number.
    FindTrack(u64, i64),
    /// Send the request.
    Send(String),
    /// It is over: well, or with what went wrong.
    Over(u64, Option<String>),
}

/// The model of a [`CastStep`].
#[verifier::ext_equal]
pub enum CastStepV {
    FindServer(u64),
    FindTrack(u64, i64),
    Send(Seq<char>),
    Over(u64, Option<Seq<char>>),
}

impl View for CastStep {
    type V = CastStepV;

    open spec fn view(&self) -> CastStepV {
        match self {
            CastStep::FindServer(w) => CastStepV::FindServer(*w),
            CastStep::FindTrack(w, sid) => CastStepV::FindTrack(*w, *sid),
            CastStep::Send(s) => CastStepV::Send(s@),
            CastStep::Over(w, e) => CastStepV::Over(*w, opt_view(*e)),
        }
    }
}

/// The request that queues a track.
pub open spec fn add_uri(pid: i64, sid: i64, cid: Seq<char>, mid: Seq<char>, aid: i64) -> Seq<char> {
    "heos://browse/add_to_queue?pid="@ + dec(pid as int) + "&sid="@ + dec(sid as int) + "&cid="@ + cid + "&mid="@ + mid
        + "&aid="@ + dec(clamped(aid as int, 1, 4))
}

fn add_request(pid: i64, sid: i64, cid: &str, mid: &str, aid: i64) -> (s: String)
    ensures
        s@ == add_uri(pid, sid, cid@, mid@, aid),
{
    let aid: i64 = if aid < 1 {
        1
    } else if aid > 4 {
        4
    } else {
        aid
    };
    let head = cat6(
        "heos://browse/add_to_queue?pid=",
        dec_i64(pid).as_str(),
        "&sid=",
        dec_i64(sid).as_str(),
        "&cid=",
        cid,
    );
    cat5(head.as_str(), "&mid=", mid, "&aid=", dec_i64(aid).as_str())
}

/// What is said where the server is not there.
pub open spec fn no_server_text() -> Seq<char> {
    "DLNA VANGUARDA-DLNA not found — is minidlna on 192.168.8.186:8200 running?"@
}

impl CastV {
    /// The cast after an event, and the step that is due. The server is looked for twice;
    /// the track once, or twelve times where the file is fresh and may not be indexed yet.
    pub open spec fn after(self, ev: CastEventV) -> (CastV, CastStepV) {
        match ev {
            CastEventV::Server(None, _) => if self.server_asks < 2 {
                (CastV { server_asks: self.server_asks + 1, ..self }, CastStepV::FindServer(2))
            } else {
                (self, CastStepV::Over(0, Some(no_server_text())))
            },
            CastEventV::Server(Some(sid), fresh) => (
                CastV { sid, fresh, track_asks: 1, ..self },
                CastStepV::FindTrack(0, sid),
            ),
            CastEventV::Track(Some((cid, mid))) => (
                CastV { cid, mid, ..self },
                CastStepV::Send(add_uri(self.pid, self.sid, cid, mid, self.aid)),
            ),
            CastEventV::Track(None) => if self.fresh && self.track_asks < 12 {
                (CastV { track_asks: self.track_asks + 1, ..self }, CastStepV::FindTrack(5, self.sid))
            } else {
                (
                    self,
                    CastStepV::Over(
                        if self.fresh {
                            5
                        } else {
                            0
                        },
                        Some("track not in DLNA for '"@ + self.stem + "' (sid "@ + dec(self.sid as int) + ")"@),
                    ),
                )
            },
            CastEventV::Answer(true) => (self, CastStepV::Over(0, None)),
            CastEventV::Answer(false) => (
                self,
                CastStepV::Over(
                    0,
                    Some(
                        "queue rejected for '"@ + self.cid + "/"@ + self.mid + "' (sid "@ + dec(self.sid as int) + ")"@,
                    ),
                ),
            ),
        }
    }
}

impl Cast {
    /// A cast that begins, with the server looked for once. `target` is the file as the
    /// server knows it.
    pub fn begin(pid: i64, aid: i64, target: &str) -> (c: Cast)
        ensures
            c@ == (CastV {
                pid,
                aid,
                stem: stem_text(target@),
                sid: 0,
                fresh: false,
                server_asks: 1,
                track_asks: 0,
                cid: ""@,
                mid: ""@,
            }),
    {
        Cast {
            pid,
            aid,
            stem: stem_text_of(target),
            sid: 0,
            fresh: false,
            server_asks: 1,
            track_asks: 0,
            cid: "".to_owned(),
            mid: "".to_owned(),
        }
    }

    /// Takes what came of a step; returns the step that is due.
    pub fn dlna_cast(&mut self, ev: CastEvent) -> (r: CastStep)
        ensures
            final(self)@ == old(self)@.after(ev@).0,
            r@ == old(self)@.after(ev@).1,
    {
        match ev {
            CastEvent::Server(None, _fresh) => {
                if self.server_asks < 2 {
                    self.server_asks = self.server_asks + 1;
                    CastStep::FindServer(2)
                } else {
                    CastStep::Over(
                        0,
                        Some(
                            "DLNA VANGUARDA-DLNA not found — is minidlna on 192.168.8.186:8200 running?".to_owned(),
                        ),
                    )
                }
            },
            CastEvent::Server(Some(sid), fresh) => {
                self.sid = sid;
                self.fresh = fresh;
                self.track_asks = 1;
                CastStep::FindTrack(0, sid)
            },
            CastEvent::Track(Some((cid, mid))) => {
                let request = add_request(self.pid, self.sid, cid.as_str(), mid.as_str(), self.aid);
                self.cid = cid;
                self.mid = mid;
                CastStep::Send(request)
            },
            CastEvent::Track(None) => {
                if self.fresh && self.track_asks < 12 {
                    self.track_asks = self.track_asks + 1;
                    return CastStep::FindTrack(5, self.sid);
                }
                CastStep::Over(
                    if self.fresh {
                        5
                    } else {
                        0
                    },
                    Some(
                        cat5(
                            "track not in DLNA for '",
                            self.stem.as_str(),
                            "' (sid ",
                            dec_i64(self.sid).as_str(),
                            ")",
                        ),
                    ),
                )
            },
            CastEvent::Answer(true) => CastStep::Over(0, None),
            CastEvent::Answer(false) => {
                let head = cat4("queue rejected for '", self.cid.as_str(), "/", self.mid.as_str());
                CastStep::Over(0, Some(cat4(head.as_str(), "' (sid ", dec_i64(self.sid).as_str(), ")")))
            },
        }
    }
}

/// Casting several files: how the `i`th is queued, and after how many milliseconds. The
/// first is played now, the others are put behind it, with a pause that spares the speaker.
pub fn cast_turn(i: usize) -> (r: (i64, u64))
    ensures
        r == if i == 0 {
            (1i64, 0u64)
        } else {
            (3i64, 1500u64)
        },
{
    if i == 0 {
        (1, 0)
    } else {
        (3, 1500)
    }
}

/// How many of the results are good.
pub open spec fn good_count(results: Seq<bool>) -> nat
    decreases results.len(),
{
    if results.len() == 0 {
        0
    } else {
        good_count(results.drop_last()) + if results.last() {
            1nat
        } else {
            0
        }
    }
}

/// How many of several casts went well, and how many there were.
pub fn dlna_cast_many(results: &Vec<bool>) -> (r: (usize, usize))
    ensures
        r.0 == good_count(results@),
        r.1 == results.len(),
        r.0 <= r.1,
{
    let mut n: usize = 0;
    assert(results@.take(0) == Seq::<bool>::empty());
    for i in 0..results.len()
        invariant
            n <= i,
            n == good_count(results@.take(i as int)),
    {
        assert(results@.take(i + 1).drop_last() == results@.take(i as int));
        if results[i] {
            n = n + 1;
        }
    }
    assert(results@.take(results.len() as int) == results@);
    (n, results.len())
}

// ---- laws ----

/// A listing ends: every reply that asks for another brings it nearer to its end, after
/// nine requests at the latest.
pub proof fn law_listing_ends(l: ListingV, objs: Seq<JsonV>)
    requires
        l.wf(),
        l.taken(objs).1,
    ensures
        l.taken(objs).0.wf(),
        listing_left(l.taken(objs).0) < listing_left(l),
        listing_left(l) <= 9,
{
}

/// How many requests a listing can still make.
pub open spec fn listing_left(l: ListingV) -> int {
    if l.whole {
        0
    } else {
        9 - l.rounds
    }
}

/// A listing loses nothing: what was there stays in front of what came.
pub proof fn law_listing_grows(l: ListingV, objs: Seq<JsonV>)
    ensures
        l.taken(objs).0.items == l.items + all_items(objs),
{
}

/// How many steps a cast can still take.
pub open spec fn cast_left(c: CastV, step: CastStepV) -> int {
    match step {
        CastStepV::FindServer(_) => 20 - c.server_asks,
        CastStepV::FindTrack(_, _) => 15 - c.track_asks,
        CastStepV::Send(_) => 1,
        CastStepV::Over(_, _) => 0,
    }
}

/// Whether an event is an answer to the step that was taken.
pub open spec fn answers(step: CastStepV, ev: CastEventV) -> bool {
    match step {
        CastStepV::FindServer(_) => ev is Server,
        CastStepV::FindTrack(_, _) => ev is Track,
        CastStepV::Send(_) => ev is Answer,
        CastStepV::Over(_, _) => false,
    }
}

/// A cast ends, whatever the answers are.
pub proof fn law_cast_ends(c: CastV, step: CastStepV, ev: CastEventV)
    requires
        answers(step, ev),
        1 <= c.server_asks <= 2,
        0 <= c.track_asks <= 12,
    ensures
        0 <= cast_left(c.after(ev).0, c.after(ev).1) < cast_left(c, step),
        1 <= c.after(ev).0.server_asks <= 2,
        0 <= c.after(ev).0.track_asks <= 12,
{
}

/// The children of a container are gone through in their order: what the first of them hold is
/// found before anything behind them.
pub proof fn law_first_track_is_taken(a: Seq<JsonV>, b: Seq<JsonV>, stem: Seq<char>)
    ensures
        track_in(a, stem) is Some ==> track_in(a + b, stem) == track_in(a, stem),
        track_in(a, stem) is None ==> track_in(a + b, stem) == track_in(b, stem),
    decreases a.len(),
{
    if a.len() == 0 {
        assert(a + b == b);
    } else {
        law_first_track_is_taken(a.skip(1), b, stem);
        assert((a + b).skip(1) == a.skip(1) + b);
        assert((a + b)[0] == a[0]);
    }
}

/// A song, or a playable entry, that has a media identifier is the track that is looked for where
/// its name, reduced to letters and digits in lower case, is not empty and is part of the stem or
/// has the stem as a part. Nothing else is.
pub proof fn law_track_goes_by_its_name(v: JsonV, mid: Seq<char>, stem: Seq<char>)
    ensures
        ({
            let name = only_alnum(lower(v.str_or("name"@, ""@)));
            let sounds = v.str_at("type"@) == Some("song"@) || v.str_at("playable"@) == Some("yes"@);
            track_in(seq![v], stem) == Some(mid) <==> {
                &&& sounds
                &&& v.str_at("mid"@) == Some(mid)
                &&& name.len() > 0
                &&& (exists|i: int| at(name, stem, i)) || (exists|i: int| at(stem, name, i))
            }
        }),
{
    assert(seq![v].skip(1) == Seq::<JsonV>::empty());
    assert(seq![v][0] == v);
    reveal_with_fuel(track_in, 2);
}

/// A track is found in a container where any of its children goes by the name, and by the first
/// that does.
pub proof fn law_track_is_found(kids: Seq<JsonV>, stem: Seq<char>, i: int)
    requires
        0 <= i < kids.len(),
        track_in(seq![kids[i]], stem) is Some,
        forall|j: int| 0 <= j < i ==> track_in(seq![#[trigger] kids[j]], stem) is None,
    ensures
        track_in(kids, stem) == kids[i].str_at("mid"@),
    decreases i,
{
    reveal_with_fuel(track_in, 2);
    assert(seq![kids[i]].skip(1) == Seq::<JsonV>::empty());
    assert(seq![kids[0]].skip(1) == Seq::<JsonV>::empty());
    assert(seq![kids[i]][0] == kids[i]);
    if i > 0 {
        assert(track_in(seq![kids[0]], stem) is None);
        assert(seq![kids[0]][0] == kids[0]);
        let rest = kids.skip(1);
        assert(rest[i - 1] == kids[i]);
        assert forall|j: int| 0 <= j < i - 1 implies track_in(seq![#[trigger] rest[j]], stem) is None by {
            assert(rest[j] == kids[j + 1]);
        }
        law_track_is_found(rest, stem, i - 1);
    }
}

/// A file that is named by a number and a title is found where the server lists the title, however
/// it writes it; so is one that is named by the title where the server lists the number with it.
pub proof fn law_numbered_track_is_found(dir: Seq<char>, number: Seq<char>, title: Seq<char>, ext: Seq<char>, v: JsonV)
    requires
        all_ascii(number),
        all_ascii(title),
        !(number + title).contains('/'),
        number + title != "."@,
        !ext.contains('/'),
        !ext.contains('.'),
        byte_len(only_alnum(lower(title))) >= 3,
        byte_len(only_alnum(lower(number + title))) >= 3,
        v.str_at("type"@) == Some("song"@),
        v.str_at("mid"@) is Some,
        v.str_at("name"@) is Some,
    ensures
        ({
            let path = dir + "/"@ + (number + title) + "."@ + ext;
            only_alnum(lower(v.str_at("name"@)->0)) == only_alnum(lower(title)) ==> search_for(path) is Some && track_in(
                seq![v],
                search_for(path)->0.stem,
            ) == v.str_at("mid"@)
        }),
        ({
            let path = dir + "/"@ + title + "."@ + ext;
            v.str_at("name"@)->0 == number + title && !title.contains('/') && title != "."@ ==> search_for(path) is Some
                && track_in(seq![v], search_for(path)->0.stem) == v.str_at("mid"@)
        }),
{
    let n = only_alnum(lower(number));
    let t = only_alnum(lower(title));
    lemma_lower_adds(number, title);
    lemma_alnum_adds(lower(number), lower(title));
    assert(only_alnum(lower(number + title)) == n + t);
    assert(t.len() > 0) by {
        if t.len() == 0 {
            assert(t == Seq::<char>::empty());
            reveal_with_fuel(vstd::utf8::encode_utf8, 1);
        }
    }
    assert(title.len() > 0) by {
        if title.len() == 0 {
            assert(lower(title) == Seq::<char>::empty());
            reveal(Seq::filter);
        }
    }
    law_has_is_contains(n, t, Seq::empty());
    assert(n + t + Seq::<char>::empty() == n + t);
    law_file_is_named(dir, number + title, ext);
    law_track_goes_by_its_name(v, v.str_at("mid"@)->0, n + t);
    law_track_goes_by_its_name(v, v.str_at("mid"@)->0, t);
    if !title.contains('/') && title != "."@ {
        law_file_is_named(dir, title, ext);
    }
}

/// A search begins where the reduced name of the file has three bytes or more, with the two
/// containers that hold music, and opens forty at most. Of the path's parts, reduced, it knows
/// those of three bytes and more.
pub proof fn law_search_begins(target: Seq<char>)
    ensures
        file_stem(target) is None ==> search_for(target) is None,
        file_stem(target) matches Some(s) ==> (search_for(target) is Some <==> byte_len(only_alnum(lower(s))) >= 3),
        search_for(target) matches Some(s) ==> {
            &&& s.stem == only_alnum(lower(file_stem(target)->0))
            &&& s.budget == 40
            &&& s.stack.len() == 2 && s.stack.contains("1"@) && s.stack.contains("64"@)
            &&& forall|c: Seq<char>|
                #[trigger] s.crumbs.contains(c) <==> byte_len(c) >= 3 && exists|i: int|
                    0 <= i < parts(target).len() && only_alnum(lower(#[trigger] parts(target)[i])) == c
        },
{
    reveal_strlit("");
    if file_stem(target) is None {
        assert(lower(""@) =~= Seq::<char>::empty());
        reveal(Seq::filter);
        assert(normal(""@) =~= Seq::<char>::empty());
        reveal_with_fuel(vstd::utf8::encode_utf8, 1);
    }
    if let Some(s) = search_for(target) {
        assert(s.stack[0] == "1"@ && s.stack[1] == "64"@);
        let p = parts(target);
        let all = Seq::new(p.len(), |i: int| normal(p[i]));
        let long = |t: Seq<char>| byte_len(t) > 2;
        lemma_filtered(all, long);
        assert forall|c: Seq<char>| #[trigger] s.crumbs.contains(c) <==> byte_len(c) >= 3 && exists|i: int|
            0 <= i < parts(target).len() && only_alnum(lower(#[trigger] parts(target)[i])) == c by {
            if s.crumbs.contains(c) {
                let i = all.index_of(c);
                assert(only_alnum(lower(parts(target)[i])) == c);
            }
            if exists|i: int| 0 <= i < parts(target).len() && only_alnum(lower(#[trigger] parts(target)[i])) == c {
                let i = choose|i: int|
                    0 <= i < parts(target).len() && only_alnum(lower(#[trigger] parts(target)[i])) == c;
                assert(all[i] == c);
            }
        }
    }
}

proof fn lemma_containers(kids: Seq<JsonV>, crumbs: Seq<Seq<char>>, on: bool)
    ensures
        forall|c: Seq<char>|
            #[trigger] containers(kids, crumbs, on).contains(c) <==> exists|i: int|
                0 <= i < kids.len() && (#[trigger] kids[i]).str_at("container"@) == Some("yes"@) && kids[i].str_at("cid"@)
                    == Some(c) && on_path(kids[i], crumbs) == on,
    decreases kids.len(),
{
    if kids.len() > 0 {
        let f = kids.drop_last();
        lemma_containers(f, crumbs, on);
        let front = containers(f, crumbs, on);
        let all = containers(kids, crumbs, on);
        let n = kids.len() - 1;
        assert forall|c: Seq<char>| #[trigger] all.contains(c) implies exists|i: int|
            0 <= i < kids.len() && (#[trigger] kids[i]).str_at("container"@) == Some("yes"@) && kids[i].str_at("cid"@) == Some(
                c,
            ) && on_path(kids[i], crumbs) == on by {
            if front.contains(c) {
                let i = choose|i: int|
                    0 <= i < f.len() && (#[trigger] f[i]).str_at("container"@) == Some("yes"@) && f[i].str_at("cid"@)
                        == Some(c) && on_path(f[i], crumbs) == on;
                assert(kids[i] == f[i]);
            } else {
                let k = all.index_of(c);
                if k < front.len() {
                    assert(front[k] == c);
                }
                assert(kids[n] == kids.last());
            }
        }
        assert forall|i: int|
            0 <= i < kids.len() && (#[trigger] kids[i]).str_at("container"@) == Some("yes"@) && kids[i].str_at("cid"@) is Some
                && on_path(kids[i], crumbs) == on implies all.contains(kids[i].str_at("cid"@)->0) by {
            let c = kids[i].str_at("cid"@)->0;
            if i < n {
                assert(f[i] == kids[i]);
                assert(front.contains(c));
                let k = front.index_of(c);
                assert(all[k] == c);
            } else {
                assert(all[all.len() - 1] == c);
            }
        }
    }
}

/// Where the track is not among the children, every container among them is put up to be opened,
/// above what waits already; those whose names and a part of the path hold one another stand above
/// the others, so that they come first.
pub proof fn law_path_is_followed(s: SearchV, kids: Seq<JsonV>) -> (n: int)
    ensures
        ({
            let stack = s.gone_through(kids).stack;
            &&& s.stack.len() <= n <= stack.len()
            &&& stack.take(s.stack.len() as int) == s.stack
            &&& forall|i: int|
                0 <= i < kids.len() && (#[trigger] kids[i]).str_at("container"@) == Some("yes"@) && kids[i].str_at(
                    "cid"@,
                ) is Some ==> {
                    let name = only_alnum(lower(kids[i].str_or("name"@, ""@)));
                    let cid = kids[i].str_at("cid"@)->0;
                    if exists|k: int| 0 <= k < s.crumbs.len() && (has(name, #[trigger] s.crumbs[k]) || has(s.crumbs[k], name)) {
                        stack.skip(n).contains(cid)
                    } else {
                        stack.subrange(s.stack.len() as int, n).contains(cid)
                    }
                }
            &&& forall|p: int|
                s.stack.len() <= p < stack.len() ==> exists|i: int|
                    0 <= i < kids.len() && (#[trigger] kids[i]).str_at("container"@) == Some("yes"@) && kids[i].str_at("cid"@)
                        == Some(#[trigger] stack[p])
            &&& s.gone_through(kids).budget == s.budget
            &&& s.gone_through(kids).stem == s.stem
            &&& s.gone_through(kids).crumbs == s.crumbs
        }),
{
    let off = containers(kids, s.crumbs, false);
    let on = containers(kids, s.crumbs, true);
    let stack = s.gone_through(kids).stack;
    let m = s.stack.len() as int;
    let n = m + off.len();
    lemma_containers(kids, s.crumbs, false);
    lemma_containers(kids, s.crumbs, true);
    assert(stack.take(m) == s.stack);
    assert(stack.subrange(m, n) == off);
    assert(stack.skip(n) == on);
    assert forall|p: int| m <= p < stack.len() implies exists|i: int|
        0 <= i < kids.len() && (#[trigger] kids[i]).str_at("container"@) == Some("yes"@) && kids[i].str_at("cid"@) == Some(
            #[trigger] stack[p],
        ) by {
        if p < n {
            assert(off[p - m] == stack[p]);
            assert(off.contains(stack[p]));
        } else {
            assert(on[p - n] == stack[p]);
            assert(on.contains(stack[p]));
        }
    }
    n
}

/// The server is the first source that bears its name and, among the music sources, is a server;
/// where they list none, it is looked for in the local music, whatever the entry is. Its number is
/// the one that stands with it.
pub proof fn law_server_is_found(sources: Seq<JsonV>, local: Seq<JsonV>, i: int)
    ensures
        0 <= i < sources.len() && sources[i].str_at("type"@) == Some("heos_server"@) && has(
            upper(sources[i].str_or("name"@, ""@)),
            "VANGUARDA"@,
        ) && (forall|j: int|
            0 <= j < i ==> (#[trigger] sources[j]).str_at("type"@) != Some("heos_server"@) || !(has(
                upper(sources[j].str_or("name"@, ""@)),
                "VANGUARDA"@,
            ))) ==> server_sid(sources, local) == sources[i].i64_at("sid"@),
        0 <= i < local.len() && has(upper(local[i].str_or("name"@, ""@)), "VANGUARDA"@) && (forall|j: int|
            0 <= j < i ==> !(has(upper((#[trigger] local[j]).str_or("name"@, ""@)), "VANGUARDA"@))) && (forall|j: int|
            0 <= j < sources.len() ==> (#[trigger] sources[j]).str_at("type"@) != Some("heos_server"@) || !(has(
                upper(sources[j].str_or("name"@, ""@)),
                "VANGUARDA"@,
            ))) ==> server_sid(sources, local) == local[i].i64_at("sid"@),
{
    if 0 <= i < sources.len() && (forall|j: int|
        0 <= j < i ==> (#[trigger] sources[j]).str_at("type"@) != Some("heos_server"@) || !is_server_name(sources[j])) {
        lemma_server_first(sources, true, i);
    }
    if 0 <= i < local.len() && (forall|j: int| 0 <= j < i ==> !is_server_name(#[trigger] local[j])) {
        lemma_server_first(local, false, i);
    }
    if forall|j: int|
        0 <= j < sources.len() ==> (#[trigger] sources[j]).str_at("type"@) != Some("heos_server"@) || !is_server_name(
            sources[j],
        ) {
        lemma_no_server(sources);
    }
}

proof fn lemma_server_first(items: Seq<JsonV>, typed: bool, i: int)
    requires
        0 <= i < items.len(),
        forall|j: int|
            0 <= j < i ==> (typed && (#[trigger] items[j]).str_at("type"@) != Some("heos_server"@)) || !is_server_name(
                items[j],
            ),
    ensures
        (typed ==> items[i].str_at("type"@) == Some("heos_server"@)) && is_server_name(items[i]) ==> server_in(items, typed)
            == Some(items[i].i64_at("sid"@)),
    decreases i,
{
    if i > 0 {
        let rest = items.skip(1);
        assert(!((typed ==> items[0].str_at("type"@) == Some("heos_server"@)) && is_server_name(items[0])));
        assert forall|j: int| 0 <= j < i - 1 implies (typed && (#[trigger] rest[j]).str_at("type"@) != Some("heos_server"@))
            || !is_server_name(rest[j]) by {
            assert(rest[j] == items[j + 1]);
        }
        lemma_server_first(rest, typed, i - 1);
        assert(rest[i - 1] == items[i]);
    }
}

proof fn lemma_no_server(items: Seq<JsonV>)
    requires
        forall|j: int|
            0 <= j < items.len() ==> (#[trigger] items[j]).str_at("type"@) != Some("heos_server"@) || !is_server_name(
                items[j],
            ),
    ensures
        server_in(items, true) is None,
    decreases items.len(),
{
    if items.len() > 0 {
        let rest = items.skip(1);
        assert(items[0].str_at("type"@) != Some("heos_server"@) || !is_server_name(items[0]));
        assert forall|j: int| 0 <= j < rest.len() implies (#[trigger] rest[j]).str_at("type"@) != Some("heos_server"@)
            || !is_server_name(rest[j]) by {
            assert(rest[j] == items[j + 1]);
        }
        lemma_no_server(rest);
    }
}

/// A file is served where it stands below the music directory or the directory of copies, and only
/// there: a directory whose name merely begins like one of these is another.
pub proof fn law_served_below(home: Seq<char>, below: Seq<char>, path: Seq<char>)
    ensures
        is_served(home + "/Music/"@ + below, home),
        is_served("/tmp/dlna/"@ + below, home),
        is_served(path, home) ==> path == home + "/Music"@ || path == "/tmp/dlna"@ || (exists|b: Seq<char>|
            path == #[trigger] (home + "/Music/"@ + b)) || (exists|b: Seq<char>| path == #[trigger] ("/tmp/dlna/"@ + b)),
{
    reveal_strlit("/Music/");
    reveal_strlit("/Music");
    reveal_strlit("/tmp/dlna/");
    reveal_strlit("/tmp/dlna");
    reveal_strlit("/");
    let m = home + "/Music"@ + "/"@;
    let d = "/tmp/dlna"@ + "/"@;
    assert(m =~= home + "/Music/"@);
    assert(d =~= "/tmp/dlna/"@);
    assert((m + below).subrange(0, m.len() as int) == m);
    assert((d + below).subrange(0, d.len() as int) == d);
    if starts(path, m) {
        assert(path == home + "/Music/"@ + path.skip(m.len() as int));
    }
    if starts(path, d) {
        assert(path == "/tmp/dlna/"@ + path.skip(d.len() as int));
    }
}

/// A track that was found is queued on the player by the server's number and the track's two
/// identifiers, in the way that was wished: now, next, at the end, or in place of the rest.
pub proof fn law_found_track_is_queued(c: CastV, cid: Seq<char>, mid: Seq<char>)
    requires
        1 <= c.aid <= 4,
    ensures
        c.after(CastEventV::Track(Some((cid, mid)))).1 == CastStepV::Send(
            "heos://browse/add_to_queue?pid="@ + dec(c.pid as int) + "&sid="@ + dec(c.sid as int) + "&cid="@ + cid + "&mid="@
                + mid + "&aid="@ + dec(c.aid as int),
        ),
        ({
            let sent = c.after(CastEventV::Track(Some((cid, mid)))).0;
            sent.after(CastEventV::Answer(true)).1 == CastStepV::Over(0, None) && (sent.after(
                CastEventV::Answer(false),
            ).1 matches CastStepV::Over(_, Some(e)) && has(e, cid) && has(e, mid))
        }),
{
    let sent = c.after(CastEventV::Track(Some((cid, mid)))).0;
    let a = "queue rejected for '"@;
    let z = "' (sid "@ + dec(c.sid as int) + ")"@;
    let e = a + cid + "/"@ + mid + "' (sid "@ + dec(c.sid as int) + ")"@;
    law_has_is_contains(a, cid, "/"@ + mid + z);
    assert(a + cid + ("/"@ + mid + z) =~= e);
    law_has_is_contains(a + cid + "/"@, mid, z);
    assert(a + cid + "/"@ + mid + z =~= e);
}

/// A track that is not found ends a cast at once, unless its file is fresh: then it is looked for
/// again, every five seconds, until it was looked for twelve times. The server is looked for a
/// second time after two seconds, and no more.
pub proof fn law_cast_is_patient(c: CastV, sid: i64, fresh: bool)
    ensures
        c.after(CastEventV::Server(Some(sid), fresh)).1 == CastStepV::FindTrack(0, sid),
        c.after(CastEventV::Server(Some(sid), fresh)).0 == (CastV { sid, fresh, track_asks: 1, ..c }),
        c.server_asks == 1 ==> c.after(CastEventV::Server(None, fresh)).1 == CastStepV::FindServer(2),
        c.server_asks == 2 ==> c.after(CastEventV::Server(None, fresh)).1 is Over,
        c.after(CastEventV::Server(None, fresh)).0.sid == c.sid,
        !c.fresh ==> (c.after(CastEventV::Track(None)).1 matches CastStepV::Over(0, Some(e)) && has(e, c.stem)),
        c.fresh && c.track_asks < 12 ==> c.after(CastEventV::Track(None)).1 == CastStepV::FindTrack(5, c.sid) && c.after(
            CastEventV::Track(None),
        ).0 == (CastV { track_asks: c.track_asks + 1, ..c }),
        c.fresh && c.track_asks >= 12 ==> c.after(CastEventV::Track(None)).1 is Over,
{
    let a = "track not in DLNA for '"@;
    let z = "' (sid "@ + dec(c.sid as int) + ")"@;
    law_has_is_contains(a, c.stem, z);
    assert(a + c.stem + z =~= a + c.stem + "' (sid "@ + dec(c.sid as int) + ")"@);
}

/// A listing asks for page after page of fifty while they are full, for eight at most, and once
/// for the whole where that gave nothing; then it is done.
pub proof fn law_listing_pages(l: ListingV, objs: Seq<JsonV>, sid: i64, cid: Seq<char>)
    requires
        l.wf(),
    ensures
        l.whole ==> !l.taken(objs).1,
        !l.whole && l.rounds < 7 && last_count(objs) >= 50 ==> l.taken(objs).1 && l.taken(objs).0.request(sid, cid)
            == "heos://browse/browse?sid="@ + dec(sid as int) + "&cid="@ + cid + "&range="@ + dec(l.start + 50) + ",50"@,
        !l.whole && (last_count(objs) < 50 || l.rounds >= 7) ==> (l.taken(objs).1 <==> l.taken(objs).0.items.len() == 0),
        !l.whole && l.taken(objs).1 && l.taken(objs).0.items.len() == 0 && last_count(objs) < 50 ==> l.taken(objs).0.request(
            sid,
            cid,
        ) == "heos://browse/browse?sid="@ + dec(sid as int) + "&cid="@ + cid,
        ListingV::fresh().request(sid, cid) == "heos://browse/browse?sid="@ + dec(sid as int) + "&cid="@ + cid + "&range="@
            + dec(0) + ",50"@,
{
}

/// Of several casts as many went well as have a good result.
pub proof fn law_good_ones_count(results: Seq<bool>)
    ensures
        good_count(results) == results.filter(|b: bool| b).len(),
    decreases results.len(),
{
    reveal(Seq::filter);
    if results.len() > 0 {
        law_good_ones_count(results.drop_last());
    }
}

/// How many entries an answer has is told by the last reply that lists any.
pub proof fn law_last_listing_counts(objs: Seq<JsonV>, o: JsonV, a: Seq<JsonV>)
    ensures
        o.arr_at("payload"@) == Some(a) ==> last_count(objs.push(o)) == a.len(),
        o.arr_at("payload"@) is None ==> last_count(objs.push(o)) == last_count(objs),
        last_count(Seq::empty()) == 0,
{
    assert(objs.push(o).drop_last() =~= objs);
}

} // verus!
