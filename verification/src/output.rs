//! The one playback channel: where the queue is played, and what that asks for.
//!
//! Local playback mirrors the queue into mpv, files and stream addresses alike. On a speaker
//! files are cast in order, and a stream is found by its station's name on TuneIn. A stream
//! is an item whose path is an `http` or `https` address, with the station in its display.

use vstd::prelude::*;
use crate::config::{ConfigV, SirenConfig};
use crate::heos::{hits_view, HitV, TuneinHit};
use crate::nums::{dec, dec_usize};
use crate::paths::{byte_len, byte_len_of};
use crate::queue::{paths_view, plan_from, play_queue_from, PlanV, PlayPlan, Session, SessionV};
use crate::text::{
    alnum_pieces, alnum_pieces_of, blank, cat2, cat3, cat4, cat7, chars_of, is_blank, is_numeral, join, joined,
    lemma_filter_take, lower, lowered, opt_view, res_view, same, starts, starts_with, trim, trimmed, views,
};

verus! {

/// Whether a path is the address of a stream.
pub open spec fn is_stream(path: Seq<char>) -> bool {
    starts(path, "http://"@) || starts(path, "https://"@)
}

/// Whether a path is the address of a stream.
pub fn is_url(path: &str) -> (r: bool)
    ensures
        r == is_stream(path@),
{
    starts_with(path, "http://") || starts_with(path, "https://")
}

// ---- finding a station ----

/// Whether a list holds a text, case aside.
pub open spec fn holds_like(list: Seq<Seq<char>>, low: Seq<char>) -> bool {
    exists|i: int| 0 <= i < list.len() && lower(#[trigger] list[i]) == low
}

fn list_has_like(list: &Vec<String>, low: &str) -> (r: bool)
    ensures
        r == holds_like(views(list@), low@),
{
    for i in 0..list.len()
        invariant
            forall|j: int| 0 <= j < i ==> lower(#[trigger] views(list@)[j]) != low@,
    {
        if same(lowered(list[i].as_str()).as_str(), low) {
            assert(lower(views(list@)[i as int]) == low@);
            return true;
        }
        assert(lower(views(list@)[i as int]) != low@);
    }
    false
}

/// The key words of a title: its first three runs of letters and digits that are longer
/// than two bytes.
pub open spec fn key_words(title: Seq<char>) -> Seq<Seq<char>> {
    let long = alnum_pieces(title).filter(|t: Seq<char>| byte_len(t) > 2);
    long.take(
        if long.len() < 3 {
            long.len() as int
        } else {
            3
        },
    )
}

/// The queries with one more, unless it is empty, the title itself or there already, case
/// aside.
pub open spec fn with_query(queries: Seq<Seq<char>>, title: Seq<char>, q: Seq<char>) -> Seq<Seq<char>> {
    if q.len() == 0 || lower(q) == lower(trim(title)) || holds_like(queries, lower(q)) {
        queries
    } else {
        queries.push(q)
    }
}

/// The queries with several more.
pub open spec fn with_queries(queries: Seq<Seq<char>>, title: Seq<char>, more: Seq<Seq<char>>) -> Seq<Seq<char>>
    decreases more.len(),
{
    if more.len() == 0 {
        queries
    } else {
        with_query(with_queries(queries, title, more.drop_last()), title, more.last())
    }
}

/// The queries for a title: the title, its key words together, and each of them alone.
pub open spec fn title_queries(title: Seq<char>) -> Seq<Seq<char>> {
    let keys = key_words(title);
    with_queries(seq![trim(title)], title, seq![join(keys, " "@)] + keys)
}

fn read_key_words(title: &str) -> (r: Vec<String>)
    ensures
        views(r@) == key_words(title@),
{
    let pieces = alnum_pieces_of(title);
    let ghost all = alnum_pieces(title@);
    let ghost long = |t: Seq<char>| byte_len(t) > 2;
    let mut r: Vec<String> = Vec::new();
    proof {
        reveal(Seq::filter);
        assert(all.take(0).filter(long) == Seq::<Seq<char>>::empty());
    }
    for i in 0..pieces.len()
        invariant
            all == views(pieces@),
            long == (|t: Seq<char>| byte_len(t) > 2),
            views(r@) == all.take(i as int).filter(long),
    {
        let ghost before = views(r@);
        if byte_len_of(pieces[i].as_str()) > 2 {
            r.push(pieces[i].clone());
            assert(views(r@) == before.push(pieces@[i as int]@));
        }
        proof {
            lemma_filter_take(all, long, i as int);
        }
    }
    assert(all.take(pieces.len() as int) == all);
    let ghost found = views(r@);
    assert(found.len() == r.len());
    if r.len() > 3 {
        r.truncate(3);
    }
    assert(views(r@) == key_words(title@));
    r
}

fn add_query(queries: &mut Vec<String>, title: &str, q: &str)
    ensures
        views(final(queries)@) == with_query(views(old(queries)@), title@, q@),
{
    let low = lowered(q);
    if !q.is_empty() && !same(low.as_str(), lowered(trimmed(title).as_str()).as_str()) && !list_has_like(
        &*queries,
        low.as_str(),
    ) {
        queries.push(q.to_owned());
        assert(views(queries@) == views(old(queries)@).push(q@));
    }
}

/// The queries for a title.
pub fn queries_for(title: &str) -> (r: Vec<String>)
    ensures
        views(r@) == title_queries(title@),
{
    let keys = read_key_words(title);
    let mut more: Vec<String> = Vec::new();
    more.push(joined(&keys, " "));
    for i in 0..keys.len()
        invariant
            more.len() == i + 1,
            more@[0]@ == join(views(keys@), " "@),
            forall|k: int| 0 <= k < i ==> (#[trigger] more@[k + 1])@ == keys@[k]@,
    {
        more.push(keys[i].clone());
        assert(more@[i + 1]@ == keys@[i as int]@);
    }
    let ghost cands = seq![join(views(keys@), " "@)] + views(keys@);
    assert(views(more@) == cands) by {
        assert forall|k: int| 0 <= k < more.len() implies views(more@)[k] == cands[k] by {
            if k > 0 {
                assert(more@[(k - 1) + 1]@ == keys@[k - 1]@);
            }
        }
    }
    let mut queries: Vec<String> = Vec::new();
    queries.push(trimmed(title));
    let ghost first = views(queries@);
    assert(first == seq![trim(title@)]);
    assert(cands.take(0) == Seq::<Seq<char>>::empty());
    for i in 0..more.len()
        invariant
            cands == views(more@),
            views(queries@) == with_queries(first, title@, cands.take(i as int)),
    {
        proof {
            assert(cands.take(i + 1).drop_last() == cands.take(i as int));
            assert(cands.take(i + 1).last() == more@[i as int]@);
        }
        add_query(&mut queries, title, more[i].as_str());
    }
    assert(cands.take(more.len() as int) == cands);
    queries
}

/// Those of the folded forms that are not empty and not among the queries, case aside.
pub open spec fn new_folds(queries: Seq<Seq<char>>, folded: Seq<Seq<char>>) -> Seq<Seq<char>> {
    folded.filter(|f: Seq<char>| f.len() > 0 && !holds_like(queries, f))
}

/// The queries, and behind them those of their folded forms that are new. A search is
/// sensitive to accents, so each query is tried without them too.
pub fn with_folded(queries: &Vec<String>, folded: &Vec<String>) -> (r: Vec<String>)
    ensures
        views(r@) == views(queries@) + new_folds(views(queries@), views(folded@)),
{
    let mut r = crate::text::copy_list(queries);
    let ghost qs = views(queries@);
    let ghost new = |f: Seq<char>| f.len() > 0 && !holds_like(qs, f);
    proof {
        reveal(Seq::filter);
        assert(views(folded@).take(0).filter(new) == Seq::<Seq<char>>::empty());
        assert(qs + Seq::<Seq<char>>::empty() == qs);
    }
    for i in 0..folded.len()
        invariant
            qs == views(queries@),
            new == (|f: Seq<char>| f.len() > 0 && !holds_like(qs, f)),
            views(r@) == qs + views(folded@).take(i as int).filter(new),
    {
        let ghost before = views(r@);
        let ghost part = views(folded@).take(i as int).filter(new);
        if !folded[i].as_str().is_empty() && !list_has_like(queries, folded[i].as_str()) {
            r.push(folded[i].clone());
            assert(views(r@) == before.push(folded@[i as int]@));
            assert(qs + part.push(folded@[i as int]@) == (qs + part).push(folded@[i as int]@));
        }
        proof {
            lemma_filter_take(views(folded@), new, i as int);
        }
    }
    assert(views(folded@).take(folded.len() as int) == views(folded@));
    r
}

/// Whether a station of that media identifier is among the hits.
pub open spec fn has_mid(hits: Seq<HitV>, mid: Seq<char>) -> bool {
    exists|i: int| 0 <= i < hits.len() && (#[trigger] hits[i]).mid == mid
}

/// The hits with more behind them, each station once.
pub open spec fn pooled(hits: Seq<HitV>, more: Seq<HitV>) -> Seq<HitV>
    decreases more.len(),
{
    if more.len() == 0 {
        hits
    } else {
        let front = pooled(hits, more.drop_last());
        if has_mid(front, more.last().mid) {
            front
        } else {
            front.push(more.last())
        }
    }
}

fn hits_have(hits: &Vec<TuneinHit>, mid: &str) -> (r: bool)
    ensures
        r == has_mid(hits_view(hits@), mid@),
{
    for i in 0..hits.len()
        invariant
            forall|j: int| 0 <= j < i ==> (#[trigger] hits_view(hits@)[j]).mid != mid@,
    {
        if same(hits[i].mid.as_str(), mid) {
            assert(hits_view(hits@)[i as int].mid == mid@);
            return true;
        }
        assert(hits_view(hits@)[i as int].mid != mid@);
    }
    false
}

fn copy_hit(h: &TuneinHit) -> (r: TuneinHit)
    ensures
        r@ == h@,
{
    TuneinHit { mid: h.mid.clone(), name: h.name.clone() }
}

/// Puts more hits into the pool, each station once.
pub fn pool_hits(hits: &mut Vec<TuneinHit>, more: &Vec<TuneinHit>)
    ensures
        hits_view(final(hits)@) == pooled(hits_view(old(hits)@), hits_view(more@)),
{
    let ghost all = hits_view(more@);
    let ghost start = hits_view(hits@);
    assert(all.take(0) == Seq::<HitV>::empty());
    for i in 0..more.len()
        invariant
            all == hits_view(more@),
            hits_view(hits@) == pooled(start, all.take(i as int)),
    {
        proof {
            assert(all.take(i + 1).drop_last() == all.take(i as int));
            assert(all.take(i + 1).last() == more@[i as int]@);
        }
        let ghost before = hits_view(hits@);
        if !hits_have(&*hits, more[i].mid.as_str()) {
            hits.push(copy_hit(&more[i]));
            assert(hits_view(hits@) == before.push(more@[i as int]@));
        }
    }
    assert(all.take(more.len() as int) == all);
}

/// Whether a text is a number: all of its characters are numerals or dots.
pub open spec fn is_number_text(t: Seq<char>) -> bool {
    forall|i: int| 0 <= i < t.len() ==> is_numeral(#[trigger] t[i]) || t[i] == '.'
}

fn reads_as_number(t: &str) -> (r: bool)
    ensures
        r == is_number_text(t@),
{
    let v = chars_of(t);
    for i in 0..v.len()
        invariant
            v@ == t@,
            forall|j: int| 0 <= j < i ==> is_numeral(#[trigger] v@[j]) || v@[j] == '.',
    {
        if !v[i].is_numeric() && v[i] != '.' {
            assert(!(is_numeral(t@[i as int]) || t@[i as int] == '.'));
            return false;
        }
    }
    true
}

/// Whether a folded word of a title tells something of the station: it is long enough, no
/// number, and no word for a band.
pub open spec fn telling(t: Seq<char>) -> bool {
    &&& byte_len(t) > 2
    &&& !is_number_text(t)
    &&& t != "fm"@
    &&& t != "am"@
    &&& t != "mhz"@
    &&& t != "khz"@
    &&& t != "dab"@
}

/// The words that stations are ranked by; `None` where a title has none.
pub open spec fn rank_text(folded_words: Seq<Seq<char>>) -> Option<Seq<char>> {
    let sig = folded_words.filter(|t: Seq<char>| telling(t));
    if sig.len() == 0 {
        None
    } else {
        Some(join(sig, " "@))
    }
}

/// The words that stations are ranked by, from the folded words of a title.
pub fn rank_query(folded_words: &Vec<String>) -> (r: Option<String>)
    ensures
        opt_view(r) == rank_text(views(folded_words@)),
{
    let mut sig: Vec<String> = Vec::new();
    let ghost all = views(folded_words@);
    let ghost tell = |t: Seq<char>| telling(t);
    proof {
        reveal(Seq::filter);
        assert(all.take(0).filter(tell) == Seq::<Seq<char>>::empty());
    }
    for i in 0..folded_words.len()
        invariant
            all == views(folded_words@),
            tell == (|t: Seq<char>| telling(t)),
            views(sig@) == all.take(i as int).filter(tell),
    {
        let t = folded_words[i].as_str();
        let band = same(t, "fm") || same(t, "am") || same(t, "mhz") || same(t, "khz") || same(t, "dab");
        let ghost before = views(sig@);
        if byte_len_of(t) > 2 && !reads_as_number(t) && !band {
            sig.push(folded_words[i].clone());
            assert(views(sig@) == before.push(folded_words@[i as int]@));
        }
        proof {
            lemma_filter_take(all, tell, i as int);
        }
    }
    assert(all.take(folded_words.len() as int) == all);
    assert(views(sig@).len() == sig.len());
    if sig.len() == 0 {
        return None;
    }
    Some(joined(&sig, " "))
}

/// The first of the hits of that name.
pub open spec fn hit_named(hits: Seq<HitV>, name: Seq<char>) -> Option<HitV>
    decreases hits.len(),
{
    if hits.len() == 0 {
        None
    } else if hits[0].name == name {
        Some(hits[0])
    } else {
        hit_named(hits.skip(1), name)
    }
}

/// The station to play: the best match by name, if it is close enough to the title. `rank`
/// is how far the title is from its name, `back` how far its name is from the title, and
/// `by_words` how far the title's telling words are; the smaller the closer.
pub open spec fn station_found(
    hits: Seq<HitV>,
    best: Option<Seq<char>>,
    rank: int,
    back: int,
    by_words: int,
) -> Option<HitV> {
    match best {
        Some(name) => if rank <= 3 || back <= 3 || by_words <= 2 {
            hit_named(hits, name)
        } else {
            None
        },
        None => None,
    }
}

/// The station to play, if any is close enough.
pub fn tunein_find(hits: &Vec<TuneinHit>, best: Option<&str>, rank: i64, back: i64, by_words: i64) -> (r: Option<
    TuneinHit,
>)
    ensures
        match r {
            Some(h) => station_found(
                hits_view(hits@),
                crate::text::opt_str(best),
                rank as int,
                back as int,
                by_words as int,
            ) == Some(h@),
            None => station_found(
                hits_view(hits@),
                crate::text::opt_str(best),
                rank as int,
                back as int,
                by_words as int,
            ) is None,
        },
{
    let name = match best {
        Some(name) => name,
        None => {
            return None;
        },
    };
    if !(rank <= 3 || back <= 3 || by_words <= 2) {
        return None;
    }
    let ghost all = hits_view(hits@);
    assert(all.skip(0) == all);
    for i in 0..hits.len()
        invariant
            all == hits_view(hits@),
            crate::text::opt_str(best) == Some(name@),
            rank <= 3 || back <= 3 || by_words <= 2,
            hit_named(all, name@) == hit_named(all.skip(i as int), name@),
    {
        proof {
            assert(all.skip(i as int)[0] == hits@[i as int]@);
            assert(all.skip(i as int).skip(1) == all.skip(i + 1));
        }
        if same(hits[i].name.as_str(), name) {
            return Some(copy_hit(&hits[i]));
        }
    }
    None
}

// ---- playing ----

/// The hint by which the configured speaker is looked for.
pub fn speaker_target(cfg: &SirenConfig) -> (r: Option<String>)
    ensures
        opt_view(r) == if blank(cfg@.audio_speaker) {
            None
        } else {
            Some(cfg@.audio_speaker)
        },
{
    if is_blank(cfg.audio_speaker.as_str()) {
        None
    } else {
        Some(cfg.audio_speaker.clone())
    }
}

/// What playing the queue comes down to.
pub enum Route {
    /// It cannot be played, for this reason.
    Refused(String),
    /// mpv plays it.
    Local(PlayPlan),
    /// A station of this title is to be played, its address is kept.
    Station(String, String),
    /// These files are to be cast; so many streams among them are left out.
    Files(Vec<String>, usize),
}

/// The model of a [`Route`].
#[verifier::ext_equal]
pub enum RouteV {
    Refused(Seq<char>),
    Local(PlanV),
    Station(Seq<char>, Seq<char>),
    Files(Seq<Seq<char>>, int),
}

impl View for Route {
    type V = RouteV;

    open spec fn view(&self) -> RouteV {
        match self {
            Route::Refused(s) => RouteV::Refused(s@),
            Route::Local(p) => RouteV::Local(p@),
            Route::Station(t, u) => RouteV::Station(t@, u@),
            Route::Files(f, n) => RouteV::Files(views(f@), *n as int),
        }
    }
}

/// The paths that are files.
pub open spec fn files_among(paths: Seq<Seq<char>>) -> Seq<Seq<char>> {
    paths.filter(|p: Seq<char>| !is_stream(p))
}

/// What playing the queue from `index` comes down to. `speaker` says whether the speaker was
/// found, where one is the output.
pub open spec fn route_of(c: ConfigV, s: SessionV, index: int, speaker: bool) -> RouteV {
    if index >= s.items.len() {
        RouteV::Refused("Queue empty."@)
    } else if !c.to_speaker() {
        RouteV::Local(plan_from(s.items, index, false))
    } else if !speaker {
        RouteV::Refused("no speaker found"@)
    } else {
        let first = s.items[index];
        if is_stream(first.path) {
            RouteV::Station(
                if first.display.len() == 0 {
                    first.path
                } else {
                    first.display
                },
                first.path,
            )
        } else {
            let rest = paths_view(s.items).skip(index);
            RouteV::Files(files_among(rest), rest.len() - files_among(rest).len())
        }
    }
}

/// What playing the queue from `index` comes down to.
pub fn play_from(cfg: &SirenConfig, s: &Session, index: usize, speaker: bool) -> (r: Route)
    ensures
        r@ == route_of(cfg@, s@, index as int, speaker),
{
    let items = &s.queue.items;
    assert(s@.items.len() == items.len());
    if items.len() == 0 || index >= items.len() {
        return Route::Refused("Queue empty.".to_owned());
    }
    if !cfg.use_heos() {
        return match play_queue_from(s, index, false) {
            Some(p) => Route::Local(p),
            None => Route::Refused("Queue empty.".to_owned()),
        };
    }
    if !speaker {
        return Route::Refused("no speaker found".to_owned());
    }
    if is_url(items[index].path.as_str()) {
        let title = if items[index].display.as_str().is_empty() {
            items[index].path.clone()
        } else {
            items[index].display.clone()
        };
        return Route::Station(title, items[index].path.clone());
    }
    let ghost rest = paths_view(s@.items).skip(index as int);
    let ghost file = |p: Seq<char>| !is_stream(p);
    let mut files: Vec<String> = Vec::new();
    proof {
        reveal(Seq::filter);
        assert(rest.take(0).filter(file) == Seq::<Seq<char>>::empty());
    }
    for i in index..items.len()
        invariant
            items == &s.queue.items,
            index < items.len(),
            rest == paths_view(s@.items).skip(index as int),
            file == (|p: Seq<char>| !is_stream(p)),
            files.len() <= i - index,
            views(files@) == rest.take(i - index).filter(file),
    {
        let ghost before = views(files@);
        assert(rest[i - index] == items@[i as int].path@);
        if !is_url(items[i].path.as_str()) {
            files.push(items[i].path.clone());
            assert(views(files@) == before.push(items@[i as int].path@));
        }
        proof {
            lemma_filter_take(rest, file, i - index);
        }
    }
    assert(rest.take(items.len() - index) == rest);
    assert(views(files@).len() == files.len());
    let skipped: usize = items.len() - index - files.len();
    Route::Files(files, skipped)
}

/// What is reported of a station: `hit` is the one found, `accepted` whether the speaker
/// took it, `name` the speaker's name.
pub open spec fn station_report(title: Seq<char>, hit: Option<Seq<char>>, accepted: bool, name: Seq<char>) -> Result<
    Seq<char>,
    Seq<char>,
> {
    match hit {
        None => Err("no TuneIn match: "@ + title + " (try output local)"@),
        Some(h) => if accepted {
            Ok("▶ "@ + h + " on "@ + name)
        } else {
            Err("TuneIn play failed: "@ + h)
        },
    }
}

/// What is reported of a station.
pub fn report_station(title: &str, hit: Option<&str>, accepted: bool, name: &str) -> (r: Result<String, String>)
    ensures
        res_view(r) == station_report(title@, crate::text::opt_str(hit), accepted, name@),
{
    match hit {
        None => Err(cat3("no TuneIn match: ", title, " (try output local)")),
        Some(h) => {
            if accepted {
                Ok(cat4("▶ ", h, " on ", name))
            } else {
                Err(cat2("TuneIn play failed: ", h))
            }
        },
    }
}

/// What is reported of the queue on this machine.
pub fn report_local(played: bool) -> (r: Result<String, String>)
    ensures
        res_view(r) == if played {
            Ok("playing from queue"@)
        } else {
            Err("Queue empty."@)
        },
{
    if played {
        Ok("playing from queue".to_owned())
    } else {
        Err("Queue empty.".to_owned())
    }
}

/// What is reported of files: so many of `n` were taken, and so many streams were left out.
pub open spec fn files_report(ok: int, n: int, skipped: int, name: Seq<char>) -> Result<Seq<char>, Seq<char>> {
    let head = "playing queue ("@ + dec(ok) + "/"@ + dec(n) + " on "@ + name + ")"@;
    let msg = if skipped > 0 {
        head + " · "@ + dec(skipped) + " stream(s) skipped (files only)"@
    } else {
        head
    };
    if ok == 0 {
        Err(msg)
    } else {
        Ok(msg)
    }
}

/// What is reported of files.
pub fn report_files(ok: usize, n: usize, skipped: usize, name: &str) -> (r: Result<String, String>)
    ensures
        res_view(r) == files_report(ok as int, n as int, skipped as int, name@),
{
    let head = cat7("playing queue (", dec_usize(ok).as_str(), "/", dec_usize(n).as_str(), " on ", name, ")");
    let msg = if skipped > 0 {
        cat4(head.as_str(), " · ", dec_usize(skipped).as_str(), " stream(s) skipped (files only)")
    } else {
        head
    };
    if ok == 0 {
        Err(msg)
    } else {
        Ok(msg)
    }
}

// ---- laws ----

/// A queue whose chosen track is a file always has a file to cast, the chosen one first,
/// and never casts a stream.
pub proof fn law_files_cast(c: ConfigV, s: SessionV, index: int)
    requires
        0 <= index < s.items.len(),
        c.to_speaker(),
        !is_stream(s.items[index].path),
    ensures
        route_of(c, s, index, true) is Files,
        route_of(c, s, index, true)->Files_0.len() > 0,
        route_of(c, s, index, true)->Files_0[0] == s.items[index].path,
        forall|i: int|
            0 <= i < route_of(c, s, index, true)->Files_0.len() ==> !is_stream(
                #[trigger] route_of(c, s, index, true)->Files_0[i],
            ),
{
    let rest = paths_view(s.items).skip(index);
    let file = |p: Seq<char>| !is_stream(p);
    let picked = rest.filter(file);
    assert(rest[0] == s.items[index].path);
    lemma_filter_first(rest, file);
    crate::text::lemma_filtered(rest, file);
    assert forall|i: int| 0 <= i < picked.len() implies !is_stream(#[trigger] picked[i]) by {
        assert(picked.contains(picked[i]));
    }
}

proof fn lemma_filter_first(s: Seq<Seq<char>>, p: spec_fn(Seq<char>) -> bool)
    requires
        s.len() > 0,
        p(s[0]),
    ensures
        s.filter(p).len() > 0,
        s.filter(p)[0] == s[0],
    decreases s.len(),
{
    reveal(Seq::filter);
    if s.len() > 1 {
        lemma_filter_first(s.drop_last(), p);
    } else {
        assert(s.drop_last() == Seq::<Seq<char>>::empty());
        assert(s.drop_last().filter(p) == Seq::<Seq<char>>::empty());
    }
}

/// The first query for a title is the title itself.
pub proof fn law_title_comes_first(title: Seq<char>)
    ensures
        title_queries(title).len() > 0,
        title_queries(title)[0] == trim(title),
{
    let keys = key_words(title);
    lemma_with_queries_first(seq![trim(title)], title, seq![join(keys, " "@)] + keys);
}

proof fn lemma_with_queries_first(queries: Seq<Seq<char>>, title: Seq<char>, more: Seq<Seq<char>>)
    requires
        queries.len() > 0,
    ensures
        with_queries(queries, title, more).len() > 0,
        with_queries(queries, title, more)[0] == queries[0],
    decreases more.len(),
{
    if more.len() > 0 {
        lemma_with_queries_first(queries, title, more.drop_last());
    }
}

/// However many searches feed it, the pool holds no station twice.
pub proof fn law_pool_has_no_duplicates(hits: Seq<HitV>, more: Seq<HitV>)
    requires
        forall|i: int, j: int| 0 <= i < j < hits.len() ==> (#[trigger] hits[i]).mid != (#[trigger] hits[j]).mid,
    ensures
        forall|i: int, j: int|
            0 <= i < j < pooled(hits, more).len() ==> (#[trigger] pooled(hits, more)[i]).mid != (
            #[trigger] pooled(hits, more)[j]).mid,
    decreases more.len(),
{
    if more.len() > 0 {
        law_pool_has_no_duplicates(hits, more.drop_last());
        let front = pooled(hits, more.drop_last());
        let all = pooled(hits, more);
        assert forall|i: int, j: int| 0 <= i < j < all.len() implies (#[trigger] all[i]).mid != (
        #[trigger] all[j]).mid by {
            assert(all[i] == front[i]);
            if j < front.len() {
                assert(all[j] == front[j]);
            }
        }
    }
}

/// Where the output is this machine, the queue plays here from the chosen track on, whatever it is;
/// where it is a speaker, a stream is looked for as a station by the name it is shown by, and files
/// are cast in their order from the chosen one on, without the streams among them, which are
/// counted.
pub proof fn law_queue_goes_where_it_plays(c: ConfigV, s: SessionV, index: int, speaker: bool)
    requires
        0 <= index,
    ensures
        index >= s.items.len() ==> route_of(c, s, index, speaker) == RouteV::Refused("Queue empty."@),
        index < s.items.len() && c.audio_output != "heos"@ ==> route_of(c, s, index, speaker) == RouteV::Local(
            plan_from(s.items, index, false),
        ),
        index < s.items.len() && c.audio_output == "heos"@ && !speaker ==> route_of(c, s, index, speaker) == RouteV::Refused(
            "no speaker found"@,
        ),
        index < s.items.len() && c.audio_output == "heos"@ && speaker && is_stream(s.items[index].path) ==> route_of(
            c,
            s,
            index,
            speaker,
        ) == RouteV::Station(
            if s.items[index].display.len() > 0 {
                s.items[index].display
            } else {
                s.items[index].path
            },
            s.items[index].path,
        ),
        index < s.items.len() && c.audio_output == "heos"@ && speaker && !is_stream(s.items[index].path) ==> (route_of(
            c,
            s,
            index,
            speaker,
        ) matches RouteV::Files(files, skipped) && {
            &&& files.len() + skipped == s.items.len() - index
            &&& skipped >= 0
            &&& forall|k: int| index <= k < s.items.len() && !is_stream((#[trigger] s.items[k]).path) ==> files.contains(
                s.items[k].path,
            )
        }),
{
    if index < s.items.len() && c.to_speaker() && speaker && !is_stream(s.items[index].path) {
        let rest = paths_view(s.items).skip(index);
        let p = |p: Seq<char>| !is_stream(p);
        crate::text::lemma_filtered(rest, p);
        lemma_filter_len(rest, p);
        let files = files_among(rest);
        assert forall|k: int| index <= k < s.items.len() && !is_stream((#[trigger] s.items[k]).path) implies files.contains(
            s.items[k].path,
        ) by {
            assert(rest[k - index] == s.items[k].path);
            assert(rest.contains(s.items[k].path));
        }
    }
}

proof fn lemma_filter_len(s: Seq<Seq<char>>, p: spec_fn(Seq<char>) -> bool)
    ensures
        s.filter(p).len() <= s.len(),
    decreases s.len(),
{
    reveal(Seq::filter);
    if s.len() > 0 {
        lemma_filter_len(s.drop_last(), p);
    }
}

/// An item is a stream where its path is an `http` or `https` address.
pub proof fn law_streams_are_addresses(rest: Seq<char>, path: Seq<char>)
    ensures
        is_stream("http://"@ + rest),
        is_stream("https://"@ + rest),
        path.len() > 0 && path[0] == '/' ==> !is_stream(path),
{
    let a = "http://"@ + rest;
    let b = "https://"@ + rest;
    assert(a.subrange(0, "http://"@.len() as int) =~= "http://"@);
    assert(b.subrange(0, "https://"@.len() as int) =~= "https://"@);
    if path.len() > 0 && path[0] == '/' {
        reveal_strlit("http://");
        reveal_strlit("https://");
        if starts(path, "http://"@) {
            assert(path.subrange(0, 7)[0] == 'h');
        }
        if starts(path, "https://"@) {
            assert(path.subrange(0, 8)[0] == 'h');
        }
    }
}

/// A station that a search found is in the pool, and stands behind those that were there.
pub proof fn law_pool_takes_all(hits: Seq<HitV>, more: Seq<HitV>, i: int)
    ensures
        pooled(hits, more).len() >= hits.len(),
        pooled(hits, more).take(hits.len() as int) == hits,
        0 <= i < more.len() ==> exists|k: int| 0 <= k < pooled(hits, more).len() && (#[trigger] pooled(hits, more)[k]).mid
            == more[i].mid,
        forall|k: int| 0 <= k < pooled(hits, more).len() ==> hits.contains(#[trigger] pooled(hits, more)[k]) || more.contains(
            pooled(hits, more)[k],
        ),
    decreases more.len(),
{
    let all = pooled(hits, more);
    if more.len() > 0 {
        let f = more.drop_last();
        law_pool_takes_all(hits, f, i);
        let front = pooled(hits, f);
        assert(all.take(hits.len() as int) =~= front.take(hits.len() as int));
        if 0 <= i < more.len() {
            if i < f.len() {
                let k = choose|k: int| 0 <= k < front.len() && (#[trigger] front[k]).mid == f[i].mid;
                assert(all[k] == front[k]);
            } else if has_mid(front, more.last().mid) {
                let k = choose|k: int| 0 <= k < front.len() && (#[trigger] front[k]).mid == more.last().mid;
                assert(all[k] == front[k]);
            } else {
                assert(all[front.len() as int] == more.last());
            }
        }
        assert forall|k: int| 0 <= k < all.len() implies hits.contains(#[trigger] all[k]) || more.contains(all[k]) by {
            if k < front.len() {
                assert(all[k] == front[k]);
                if f.contains(front[k]) {
                    assert(more[f.index_of(front[k])] == front[k]);
                }
            } else {
                assert(more[more.len() - 1] == all[k]);
            }
        }
    } else {
        assert(hits.take(hits.len() as int) =~= hits);
        assert forall|k: int| 0 <= k < all.len() implies hits.contains(#[trigger] all[k]) by {
            assert(hits[k] == all[k]);
        }
    }
}

/// The station that is played is the first of the pool that has the best name, and only where the
/// name is close to the title or its words are.
pub proof fn law_station_is_close(hits: Seq<HitV>, name: Seq<char>, rank: int, back: int, by_words: int, i: int)
    ensures
        station_found(hits, None, rank, back, by_words) is None,
        rank > 3 && back > 3 && by_words > 2 ==> station_found(hits, Some(name), rank, back, by_words) is None,
        (rank <= 3 || back <= 3 || by_words <= 2) && 0 <= i < hits.len() && hits[i].name == name && (forall|j: int|
            0 <= j < i ==> (#[trigger] hits[j]).name != name) ==> station_found(hits, Some(name), rank, back, by_words) == Some(
            hits[i],
        ),
{
    if 0 <= i < hits.len() && hits[i].name == name && (forall|j: int| 0 <= j < i ==> (#[trigger] hits[j]).name != name) {
        lemma_first_named(hits, name, i);
    }
}

proof fn lemma_first_named(hits: Seq<HitV>, name: Seq<char>, i: int)
    requires
        0 <= i < hits.len(),
        hits[i].name == name,
        forall|j: int| 0 <= j < i ==> (#[trigger] hits[j]).name != name,
    ensures
        hit_named(hits, name) == Some(hits[i]),
    decreases i,
{
    if i > 0 {
        let rest = hits.skip(1);
        assert(hits[0].name != name);
        assert forall|j: int| 0 <= j < i - 1 implies (#[trigger] rest[j]).name != name by {
            assert(rest[j] == hits[j + 1]);
        }
        lemma_first_named(rest, name, i - 1);
    }
}

/// What is said of a station names the one that plays and where, or what was not found; what is
/// said of files counts them, and fails where none was taken.
pub proof fn law_outcome_is_said(title: Seq<char>, hit: Seq<char>, name: Seq<char>, ok: int, n: int, skipped: int)
    requires
        0 <= ok,
    ensures
        station_report(title, Some(hit), true, name) == Ok::<Seq<char>, Seq<char>>("▶ "@ + hit + " on "@ + name),
        station_report(title, None, true, name) == Err::<Seq<char>, Seq<char>>(
            "no TuneIn match: "@ + title + " (try output local)"@,
        ),
        station_report(title, Some(hit), false, name) is Err,
        files_report(ok, n, skipped, name) is Ok <==> ok > 0,
        ok > 0 && skipped == 0 ==> files_report(ok, n, skipped, name)->Ok_0 == "playing queue ("@ + dec(ok) + "/"@ + dec(n)
            + " on "@ + name + ")"@,
        ok > 0 && skipped > 0 ==> crate::text::ends(
            files_report(ok, n, skipped, name)->Ok_0,
            " · "@ + dec(skipped) + " stream(s) skipped (files only)"@,
        ),
{
    if ok > 0 && skipped > 0 {
        let head = "playing queue ("@ + dec(ok) + "/"@ + dec(n) + " on "@ + name + ")"@;
        lemma_said(head, " · "@, dec(skipped), " stream(s) skipped (files only)"@);
    }
}

proof fn lemma_said(head: Seq<char>, a: Seq<char>, b: Seq<char>, c: Seq<char>)
    ensures
        crate::text::ends(head + a + b + c, a + b + c),
{
    let tail = a + b + c;
    assert(head + a + b + c =~= head + tail);
    crate::text::law_has_is_contains(head, tail, Seq::empty());
}

/// A title is looked for as it is, then by its telling words: each query is new, case aside, and
/// none is empty but a title that is.
pub proof fn law_queries_differ(title: Seq<char>)
    ensures
        forall|i: int, j: int|
            0 <= i < j < title_queries(title).len() ==> lower(#[trigger] title_queries(title)[i]) != lower(
                #[trigger] title_queries(title)[j],
            ),
        forall|i: int| 0 < i < title_queries(title).len() ==> (#[trigger] title_queries(title)[i]).len() > 0,
        title_queries(title).len() <= 5,
        forall|k: int|
            0 <= k < key_words(title).len() ==> byte_len(#[trigger] key_words(title)[k]) > 2 && holds_like(
                title_queries(title),
                lower(key_words(title)[k]),
            ),
{
    let keys = key_words(title);
    let more = seq![join(keys, " "@)] + keys;
    let first = seq![trim(title)];
    lemma_queries(first, title, more);
    let long = alnum_pieces(title).filter(|t: Seq<char>| byte_len(t) > 2);
    crate::text::lemma_filtered(alnum_pieces(title), |t: Seq<char>| byte_len(t) > 2);
    assert forall|k: int| 0 <= k < keys.len() implies byte_len(#[trigger] keys[k]) > 2 && holds_like(
        title_queries(title),
        lower(keys[k]),
    ) by {
        assert(keys[k] == long[k]);
        assert(long.contains(long[k]));
        assert(more[k + 1] == keys[k]);
        if keys[k].len() == 0 {
            assert(keys[k] =~= Seq::<char>::empty());
            reveal_with_fuel(vstd::utf8::encode_utf8, 1);
        }
    }
}

proof fn lemma_queries(queries: Seq<Seq<char>>, title: Seq<char>, more: Seq<Seq<char>>)
    requires
        queries == seq![trim(title)],
    ensures
        ({
            let r = with_queries(queries, title, more);
            &&& 1 <= r.len() <= 1 + more.len()
            &&& r[0] == trim(title)
            &&& forall|i: int, j: int| 0 <= i < j < r.len() ==> lower(#[trigger] r[i]) != lower(#[trigger] r[j])
            &&& forall|i: int| 0 < i < r.len() ==> (#[trigger] r[i]).len() > 0
            &&& forall|k: int| 0 <= k < more.len() && (#[trigger] more[k]).len() > 0 ==> holds_like(r, lower(more[k]))
        }),
    decreases more.len(),
{
    if more.len() > 0 {
        let f = more.drop_last();
        lemma_queries(queries, title, f);
        let front = with_queries(queries, title, f);
        let q = more.last();
        let r = with_queries(queries, title, more);
        assert forall|i: int, j: int| 0 <= i < j < r.len() implies lower(#[trigger] r[i]) != lower(#[trigger] r[j]) by {
            assert(r[i] == front[i]);
            if j < front.len() {
                assert(r[j] == front[j]);
            } else if lower(front[i]) == lower(q) {
                assert(holds_like(front, lower(q)));
            }
        }
        assert forall|i: int| 0 < i < r.len() implies (#[trigger] r[i]).len() > 0 by {
            if i < front.len() {
                assert(r[i] == front[i]);
            }
        }
        assert forall|k: int| 0 <= k < more.len() && (#[trigger] more[k]).len() > 0 implies holds_like(r, lower(more[k])) by {
            if k < f.len() {
                assert(f[k] == more[k]);
                assert(holds_like(front, lower(f[k])));
                let i = choose|i: int| 0 <= i < front.len() && lower(#[trigger] front[i]) == lower(f[k]);
                assert(r[i] == front[i]);
            } else if r.len() > front.len() {
                assert(r[front.len() as int] == q);
            } else if lower(q) == lower(trim(title)) {
                assert(lower(r[0]) == lower(q));
            }
        }
    }
}

/// The words of a title that tell stations apart are those of more than two bytes that are no
/// number and no unit of radio; a title is ranked by these, in their order, or not at all.
pub proof fn law_telling_words(t: Seq<char>, ws: Seq<Seq<char>>, i: int)
    ensures
        byte_len(t) <= 2 ==> !telling(t),
        (forall|k: int| 0 <= k < t.len() ==> is_numeral(#[trigger] t[k]) || t[k] == '.') ==> !telling(t),
        !telling("fm"@) && !telling("am"@) && !telling("mhz"@) && !telling("khz"@) && !telling("dab"@),
        byte_len(t) > 2 && 0 <= i < t.len() && !is_numeral(t[i]) && t[i] != '.' && !seq!["fm"@, "am"@, "mhz"@, "khz"@, "dab"@].contains(
            t,
        ) ==> telling(t),
        (forall|k: int| 0 <= k < ws.len() ==> telling(#[trigger] ws[k])) && ws.len() > 0 ==> rank_text(ws) == Some(
            join(ws, " "@),
        ),
        (forall|k: int| 0 <= k < ws.len() ==> !telling(#[trigger] ws[k])) ==> rank_text(ws) is None,
        telling(t) ==> rank_text(ws.push(t)) is Some,
        !telling(t) ==> rank_text(ws.push(t)) == rank_text(ws),
{
    let units = seq!["fm"@, "am"@, "mhz"@, "khz"@, "dab"@];
    assert(units[0] == "fm"@ && units[1] == "am"@ && units[2] == "mhz"@ && units[3] == "khz"@ && units[4] == "dab"@);
    let p = |t: Seq<char>| telling(t);
    if forall|k: int| 0 <= k < ws.len() ==> telling(#[trigger] ws[k]) {
        lemma_filter_all(ws, p);
    }
    if forall|k: int| 0 <= k < ws.len() ==> !telling(#[trigger] ws[k]) {
        lemma_filter_none(ws, p);
    }
    crate::text::lemma_filter_push(ws, p, t);
}

proof fn lemma_filter_all(s: Seq<Seq<char>>, p: spec_fn(Seq<char>) -> bool)
    requires
        forall|k: int| 0 <= k < s.len() ==> p(#[trigger] s[k]),
    ensures
        s.filter(p) == s,
    decreases s.len(),
{
    if s.len() > 0 {
        lemma_filter_all(s.drop_last(), p);
        crate::text::lemma_filter_push(s.drop_last(), p, s.last());
        assert(p(s[s.len() - 1]));
        assert(s.drop_last().push(s.last()) =~= s);
    } else {
        reveal(Seq::filter);
        assert(s.filter(p) =~= s);
    }
}

proof fn lemma_filter_none(s: Seq<Seq<char>>, p: spec_fn(Seq<char>) -> bool)
    requires
        forall|k: int| 0 <= k < s.len() ==> !p(#[trigger] s[k]),
    ensures
        s.filter(p).len() == 0,
    decreases s.len(),
{
    if s.len() > 0 {
        lemma_filter_none(s.drop_last(), p);
        crate::text::lemma_filter_push(s.drop_last(), p, s.last());
        assert(!p(s[s.len() - 1]));
        assert(s.drop_last().push(s.last()) =~= s);
    } else {
        reveal(Seq::filter);
    }
}

/// Of the folded forms of a title those are asked for too that are not empty and that no query is
/// already, case aside, in their order.
pub proof fn law_folded_forms_are_new(queries: Seq<Seq<char>>, folded: Seq<Seq<char>>, f: Seq<char>, i: int)
    ensures
        f.len() == 0 ==> new_folds(queries, folded.push(f)) == new_folds(queries, folded),
        0 <= i < queries.len() && lower(queries[i]) == f ==> new_folds(queries, folded.push(f)) == new_folds(queries, folded),
        f.len() > 0 && (forall|k: int| 0 <= k < queries.len() ==> lower(#[trigger] queries[k]) != f) ==> new_folds(
            queries,
            folded.push(f),
        ) == new_folds(queries, folded).push(f),
        new_folds(queries, Seq::empty()).len() == 0,
{
    let p = |f: Seq<char>| f.len() > 0 && !holds_like(queries, f);
    crate::text::lemma_filter_push(folded, p, f);
    lemma_filter_none(Seq::empty(), p);
}

} // verus!
