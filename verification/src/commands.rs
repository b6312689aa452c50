//! The commands that play, list, time and search.

use vstd::prelude::*;
use crate::cli::{
    audio_ask, config_ask, fail, fails, heos_target, list, lists, number_at, one, read_sub, say, say_noting, says,
    says_noting, show_state, show_volume, speaker_args, speaker_hint, speaker_known, speaker_queue_ask, state_text,
    status_known, sub_word, trouble, volume_text, Ask, AskV, AudioCmdV, Known, Speaker, SpeakerV, Verb,
};
use crate::config::{ConfigV, SirenConfig};
use crate::heos::{self, player_uri, toggled};
use crate::json::{
    int_v, json_i64, json_obj, json_str, member_of, members, parse_or_null, parsed_or_null, real_v, json_real, Json, JsonV,
};
use crate::nums::{dec, dec_usize, int_in, pad, pad_left, parse_u32};
use crate::player::{mpv3, set_bool};
use crate::playlist::{find, found_name};
use crate::queue::{
    self, items_view, plan_from, play_queue_from, status_text, with_items, MpvState, PlanV, PlayPlan, QueueItem,
    Session, SessionV,
};
use crate::text::{
    after_prefix, cat2, cat3, cat5, cat6, contains, copy_list, copy_tail, has, join, joined, lemma_filter_take,
    lines, lines_of, lower, lowered, opt_str, opt_view, same, strip_prefix, views, words, words_of,
};
use crate::trove::{about_lines, about_text};

verus! {

// ---- casting ----

/// The files that the arguments mean, as far as it was asked for.
pub open spec fn hits_known(k: Known) -> Option<Seq<Seq<char>>> {
    match k.hits {
        Some(h) => Some(views(h@)),
        None => None,
    }
}

/// How a file is queued on the speaker: at once, next, or at the end.
pub open spec fn cast_way(next: bool, append: bool) -> i64 {
    if next {
        2
    } else if append {
        3
    } else {
        1
    }
}

/// How the report says so.
pub open spec fn way_text(aid: i64) -> Seq<char> {
    if aid == 2 {
        " (play-next)"@
    } else if aid == 3 {
        " (appended)"@
    } else {
        ""@
    }
}

/// What a cast of one file asks for.
pub open spec fn cast_file_ask(c: ConfigV, path: Seq<char>, speaker: Option<Seq<char>>, aid: i64, k: Known) -> AskV {
    match speaker_known(k) {
        None => AskV::Speaker(speaker_hint(c, speaker)),
        Some(None) => fails("no speaker found"@, 1),
        Some(Some(s)) => match trouble(k.cast) {
            None => AskV::Cast(path, aid),
            Some(None) => says_noting(
                "cast "@ + path + " → "@ + s.name + way_text(aid),
                0,
                if aid == 1 {
                    Some(path)
                } else {
                    None
                },
            ),
            Some(Some(e)) => fails("cast failed: "@ + e, 1),
        },
    }
}

/// What `cast` asks for.
pub open spec fn cast_ask(
    c: ConfigV,
    query: Seq<Seq<char>>,
    speaker: Option<Seq<char>>,
    next: bool,
    append: bool,
    k: Known,
) -> AskV {
    match hits_known(k) {
        None => AskV::Resolve,
        Some(hits) => if hits.len() == 0 {
            says("No tracks match: "@ + join(query, " "@), 1)
        } else {
            cast_file_ask(c, hits[0], speaker, cast_way(next, append), k)
        },
    }
}

fn cast_file(cfg: &SirenConfig, path: &str, speaker: Option<&str>, aid: i64, k: &Known) -> (r: Ask)
    ensures
        r@ == cast_file_ask(cfg@, path@, opt_str(speaker), aid, *k),
{
    match &k.speaker {
        None => Ask::Speaker(heos_target(cfg, speaker)),
        Some(None) => fail("no speaker found".to_owned(), 1),
        Some(Some(s)) => match &k.cast {
            None => Ask::Cast(path.to_owned(), aid),
            Some(None) => {
                let how = if aid == 2 {
                    " (play-next)"
                } else if aid == 3 {
                    " (appended)"
                } else {
                    ""
                };
                let note = if aid == 1 {
                    Some(path.to_owned())
                } else {
                    None
                };
                say_noting(cat5("cast ", path, " → ", s.name.as_str(), how), 0, note)
            },
            Some(Some(e)) => fail(cat2("cast failed: ", e.as_str()), 1),
        },
    }
}

/// `cast`: puts the first match on the speaker.
pub fn cmd_cast(cfg: &SirenConfig, query: &Vec<String>, speaker: Option<&str>, next: bool, append: bool, k: &Known) -> (r:
    Ask)
    ensures
        r@ == cast_ask(cfg@, views(query@), opt_str(speaker), next, append, *k),
{
    let hits = match &k.hits {
        None => {
            return Ask::Resolve;
        },
        Some(h) => h,
    };
    assert(views(hits@).len() == hits.len());
    if hits.len() == 0 {
        return say(cat2("No tracks match: ", joined(query, " ").as_str()), 1);
    }
    assert(views(hits@)[0] == hits@[0]@);
    let aid: i64 = if next {
        2
    } else if append {
        3
    } else {
        1
    };
    cast_file(cfg, hits[0].as_str(), speaker, aid, k)
}

/// What playing files on the speaker asks for; `what` is the playlist that they make up.
pub open spec fn paths_ask(c: ConfigV, paths: Seq<Seq<char>>, what: Option<Seq<char>>, k: Known) -> AskV {
    if paths.len() == 0 {
        says("Queue empty."@, 1)
    } else {
        match speaker_known(k) {
            None => AskV::Speaker(speaker_hint(c, None)),
            Some(None) => fails("no speaker found"@, 1),
            Some(Some(s)) => match k.casts {
                None => AskV::CastMany("casting "@ + dec(paths.len() as int) + " track(s) → "@ + s.name + "…"@, paths),
                Some((ok, n)) => says_noting(
                    (match what {
                        Some(name) => "Playing playlist: "@ + name + " ("@,
                        None => "Playing queue ("@,
                    }) + dec(ok as int) + "/"@ + dec(n as int) + " on "@ + s.name + ")"@,
                    if ok == 0 {
                        1
                    } else {
                        0
                    },
                    if ok > 0 {
                        Some(paths[0])
                    } else {
                        None
                    },
                ),
            },
        }
    }
}

/// Plays files on the speaker in order: the first at once, the rest behind it.
pub fn play_paths_heos(cfg: &SirenConfig, paths: &Vec<String>, what: Option<&str>, k: &Known) -> (r: Ask)
    ensures
        r@ == paths_ask(cfg@, views(paths@), opt_str(what), *k),
{
    assert(views(paths@).len() == paths.len());
    if paths.len() == 0 {
        return say("Queue empty.".to_owned(), 1);
    }
    assert(views(paths@)[0] == paths@[0]@);
    match &k.speaker {
        None => Ask::Speaker(heos_target(cfg, None)),
        Some(None) => fail("no speaker found".to_owned(), 1),
        Some(Some(s)) => match k.casts {
            None => Ask::CastMany(
                cat5("casting ", dec_usize(paths.len()).as_str(), " track(s) → ", s.name.as_str(), "…"),
                copy_list(paths),
            ),
            Some((ok, n)) => {
                let head = match what {
                    Some(name) => cat3("Playing playlist: ", name, " ("),
                    None => "Playing queue (".to_owned(),
                };
                let line = cat6(
                    head.as_str(),
                    dec_usize(ok).as_str(),
                    "/",
                    dec_usize(n).as_str(),
                    " on ",
                    s.name.as_str(),
                );
                let note = if ok > 0 {
                    Some(paths[0].clone())
                } else {
                    None
                };
                let code: i32 = if ok == 0 {
                    1
                } else {
                    0
                };
                say_noting(cat2(line.as_str(), ")"), code, note)
            },
        },
    }
}

// ---- playing ----

/// What going on with what mpv holds asks for.
pub open spec fn resume_ask(k: Known) -> AskV {
    if k.sent == 0 {
        AskV::Mpv(mpv3("set_property"@, "pause"@, JsonV::Bool(false)))
    } else {
        match k.label {
            None => AskV::Label(0),
            Some(before) => if before@.len() == 0 && k.sent == 1 {
                AskV::Mpv(JsonV::Arr(seq![JsonV::Str("playlist-play-index"@), int_v(0)]))
            } else {
                match k.label_after {
                    None => AskV::Label(150),
                    Some(after) => if after@.len() == 0 {
                        says("Playback resumed"@, 0)
                    } else {
                        says("Playing: "@ + after@, 0)
                    },
                }
            },
        }
    }
}

/// The playlist that one argument names, as far as it was asked for.
pub open spec fn list_named(rest: Seq<Seq<char>>, k: Known) -> Option<Option<Seq<char>>> {
    if rest.len() == 1 {
        match k.names {
            None => None,
            Some(names) => Some(found_name(views(names@), rest[0])),
        }
    } else {
        Some(None)
    }
}

/// What `play` asks for on this machine, where nothing is gone on with.
pub open spec fn play_files_ask(rest: Seq<Seq<char>>, k: Known) -> AskV {
    match list_named(rest, k) {
        None => AskV::Names,
        Some(Some(hit)) => AskV::PlayList(hit),
        Some(None) => match hits_known(k) {
            None => AskV::Resolve,
            Some(hits) => if hits.len() == 0 {
                says("No tracks match: "@ + join(rest, " "@), 1)
            } else {
                AskV::Start(hits, false)
            },
        },
    }
}

/// What `play` asks for.
pub open spec fn play_ask(c: ConfigV, rest: Seq<Seq<char>>, k: Known) -> AskV {
    if c.to_speaker() {
        match speaker_known(k) {
            None => AskV::Speaker(speaker_hint(c, None)),
            Some(None) => fails("no speaker found"@, 1),
            Some(Some(s)) => if rest.len() == 0 {
                match k.answer {
                    None => AskV::Request(player_uri("set_play_state"@, s.pid) + "&state="@ + "play"@),
                    Some(_) => says("Playing: "@ + s.name, 0),
                }
            } else {
                cast_ask(c, rest, None, false, false, k)
            },
        }
    } else if rest.len() == 0 {
        match k.count {
            None => AskV::PlaylistCount,
            Some(n) => if n > 0 {
                resume_ask(k)
            } else {
                play_files_ask(rest, k)
            },
        }
    } else {
        play_files_ask(rest, k)
    }
}

/// The command that plays the first file of mpv's playlist.
fn play_first() -> (j: Json)
    ensures
        j@ == JsonV::Arr(seq![JsonV::Str("playlist-play-index"@), int_v(0)]),
{
    let mut a: Vec<Json> = Vec::new();
    a.push(json_str("playlist-play-index"));
    a.push(json_i64(0));
    assert(crate::json::jsons(a@) == seq![JsonV::Str("playlist-play-index"@), int_v(0)]);
    crate::json::json_arr(a)
}

fn resume(k: &Known) -> (r: Ask)
    ensures
        r@ == resume_ask(*k),
{
    if k.sent == 0 {
        return Ask::Mpv(set_bool("pause", false));
    }
    match &k.label {
        None => Ask::Label(0),
        Some(before) => {
            if before.as_str().is_empty() && k.sent == 1 {
                return Ask::Mpv(play_first());
            }
            match &k.label_after {
                None => Ask::Label(150),
                Some(after) => {
                    if after.as_str().is_empty() {
                        say("Playback resumed".to_owned(), 0)
                    } else {
                        say(cat2("Playing: ", after.as_str()), 0)
                    }
                },
            }
        },
    }
}

fn play_files(rest: &Vec<String>, k: &Known) -> (r: Ask)
    ensures
        r@ == play_files_ask(views(rest@), *k),
{
    assert(views(rest@).len() == rest.len());
    if rest.len() == 1 {
        assert(views(rest@)[0] == rest@[0]@);
        match &k.names {
            None => {
                return Ask::Names;
            },
            Some(names) => match find(names, rest[0].as_str()) {
                Some(hit) => {
                    return Ask::PlayList(hit);
                },
                None => {},
            },
        }
    }
    match &k.hits {
        None => Ask::Resolve,
        Some(hits) => {
            assert(views(hits@).len() == hits.len());
            if hits.len() == 0 {
                say(cat2("No tracks match: ", joined(rest, " ").as_str()), 1)
            } else {
                Ask::Start(copy_list(hits), false)
            }
        },
    }
}

/// `play`: goes on with what is there, or plays a playlist or the matches.
pub fn cmd_play(cfg: &SirenConfig, rest: &Vec<String>, k: &Known) -> (r: Ask)
    ensures
        r@ == play_ask(cfg@, views(rest@), *k),
{
    assert(views(rest@).len() == rest.len());
    if cfg.use_heos() {
        return match &k.speaker {
            None => Ask::Speaker(heos_target(cfg, None)),
            Some(None) => fail("no speaker found".to_owned(), 1),
            Some(Some(s)) => {
                if rest.len() == 0 {
                    match k.answer {
                        None => Ask::Request(heos::set_state(s.pid, "play")),
                        Some(_) => say(cat2("Playing: ", s.name.as_str()), 0),
                    }
                } else {
                    cmd_cast(cfg, rest, None, false, false, k)
                }
            },
        };
    }
    if rest.len() == 0 {
        match k.count {
            None => {
                return Ask::PlaylistCount;
            },
            Some(n) => {
                if n > 0 {
                    return resume(k);
                }
            },
        }
    }
    play_files(rest, k)
}

/// How a playlist is put on.
pub enum Load {
    /// It is not there: a line to print.
    Missing(String),
    /// Its files go to the speaker.
    Speaker(Vec<String>),
    /// It plays here; then the line is printed.
    Here(PlayPlan, String),
}

/// The model of a [`Load`].
#[verifier::ext_equal]
pub enum LoadV {
    Missing(Seq<char>),
    Speaker(Seq<Seq<char>>),
    Here(PlanV, Seq<char>),
}

impl View for Load {
    type V = LoadV;

    open spec fn view(&self) -> LoadV {
        match self {
            Load::Missing(l) => LoadV::Missing(l@),
            Load::Speaker(p) => LoadV::Speaker(views(p@)),
            Load::Here(p, l) => LoadV::Here(p@, l@),
        }
    }
}

/// Puts a playlist on: its tracks replace the queue, and play from the first. Without tracks
/// nothing changes.
pub fn cmd_playlist_load(s: &mut Session, cfg: &SirenConfig, name: &str, tracks: Vec<QueueItem>) -> (r: Load)
    ensures
        final(s)@ == if tracks.len() == 0 {
            old(s)@
        } else {
            with_items(old(s)@, items_view(tracks@))
        },
        r@ == if tracks.len() == 0 {
            LoadV::Missing("Playlist not found: "@ + name@)
        } else if cfg@.to_speaker() {
            LoadV::Speaker(queue::paths_view(items_view(tracks@)))
        } else {
            LoadV::Here(plan_from(items_view(tracks@), 0, false), "Playing playlist: "@ + name@)
        },
{
    if tracks.len() == 0 {
        return Load::Missing(cat2("Playlist not found: ", name));
    }
    assert(items_view(tracks@).len() == tracks.len());
    let _ = queue::replace(s, tracks);
    if cfg.use_heos() {
        return Load::Speaker(queue::paths_of(&s.queue.items));
    }
    match play_queue_from(s, 0, false) {
        Some(plan) => Load::Here(plan, cat2("Playing playlist: ", name)),
        None => Load::Missing(cat2("Playlist not found: ", name)),
    }
}

/// What `random` asks for of a library; `chance` picks the file that a speaker gets.
pub open spec fn random_ask(c: ConfigV, lib: Seq<Seq<char>>, chance: int, k: Known) -> AskV {
    if lib.len() == 0 {
        says("No tracks found in library."@, 1)
    } else if c.to_speaker() {
        cast_file_ask(c, lib[chance % (lib.len() as int)], None, 1, k)
    } else {
        AskV::Start(lib, true)
    }
}

/// `random`: the whole library shuffled, or one of its files on the speaker.
pub fn cmd_random(cfg: &SirenConfig, lib: &Vec<String>, chance: usize, k: &Known) -> (r: Ask)
    ensures
        r@ == random_ask(cfg@, views(lib@), chance as int, *k),
{
    assert(views(lib@).len() == lib.len());
    if lib.len() == 0 {
        return say("No tracks found in library.".to_owned(), 1);
    }
    if cfg.use_heos() {
        let i: usize = chance % lib.len();
        assert(views(lib@)[i as int] == lib@[i as int]@);
        return cast_file(cfg, lib[i].as_str(), None, 1, k);
    }
    Ask::Start(copy_list(lib), true)
}

/// How many matches are listed.
pub const SHOWN_MATCHES: usize = 20;

/// The lines that list matches.
pub open spec fn match_lines(hits: Seq<Seq<char>>) -> Seq<Seq<char>> {
    let shown = Seq::new(
        if hits.len() > SHOWN_MATCHES {
            SHOWN_MATCHES as nat
        } else {
            hits.len()
        },
        |i: int| pad(dec(i + 1), 3) + ". "@ + hits[i],
    );
    if hits.len() > SHOWN_MATCHES {
        shown.push("… "@ + dec(hits.len() - SHOWN_MATCHES) + " more"@)
    } else {
        shown
    }
}

/// `resolve`: lists the matches without playing them.
pub fn cmd_resolve(query: &Vec<String>, hits: &Vec<String>) -> (r: Ask)
    ensures
        r@ == if hits.len() == 0 {
            says("No tracks match: "@ + join(views(query@), " "@), 1)
        } else {
            lists(match_lines(views(hits@)), 0)
        },
{
    if hits.len() == 0 {
        return say(cat2("No tracks match: ", joined(query, " ").as_str()), 1);
    }
    let ghost all = views(hits@);
    assert(all.len() == hits.len());
    let n: usize = if hits.len() > SHOWN_MATCHES {
        SHOWN_MATCHES
    } else {
        hits.len()
    };
    let mut out: Vec<String> = Vec::new();
    for i in 0..n
        invariant
            all == views(hits@),
            n <= hits.len(),
            out.len() == i,
            forall|j: int| 0 <= j < i ==> (#[trigger] out@[j])@ == pad(dec(j + 1), 3) + ". "@ + all[j],
    {
        let number = pad_left(dec_usize(i + 1).as_str(), 3);
        out.push(cat3(number.as_str(), ". ", hits[i].as_str()));
    }
    if hits.len() > SHOWN_MATCHES {
        out.push(cat3("… ", dec_usize(hits.len() - SHOWN_MATCHES).as_str(), " more"));
    }
    assert(views(out@) == match_lines(all));
    list(out, 0)
}

// ---- transport ----

/// What a transport key asks for.
pub open spec fn transport_ask(c: ConfigV, verb: Verb, k: Known) -> AskV {
    if c.to_speaker() {
        match speaker_known(k) {
            None => AskV::Speaker(speaker_hint(c, None)),
            Some(None) => fails("no speaker found"@, 1),
            Some(Some(s)) => match verb {
                Verb::Pause => match trouble(k.state) {
                    None => AskV::State,
                    Some(st) => match k.answer {
                        None => AskV::Request(player_uri("set_play_state"@, s.pid) + "&state="@ + toggled(st)),
                        Some(_) => says(s.name + " → "@ + toggled(st), 0),
                    },
                },
                Verb::Stop => match k.answer {
                    None => AskV::Request(player_uri("set_play_state"@, s.pid) + "&state="@ + "stop"@),
                    Some(_) => says(s.name + " stopped"@, 0),
                },
                Verb::Next => match k.answer {
                    None => AskV::Request(player_uri("play_next"@, s.pid)),
                    Some(_) => says("Next: "@ + s.name, 0),
                },
                Verb::Prev => match k.answer {
                    None => AskV::Request(player_uri("play_previous"@, s.pid)),
                    Some(_) => says("Previous: "@ + s.name, 0),
                },
            },
        }
    } else if !k.done {
        AskV::Local(verb)
    } else {
        match verb {
            Verb::Pause => says("Playback paused / resumed"@, 0),
            Verb::Stop => says("Playback stopped"@, 0),
            Verb::Next => match k.label_after {
                None => AskV::Label(150),
                Some(l) => says("Next: "@ + l@, 0),
            },
            Verb::Prev => match k.label_after {
                None => AskV::Label(150),
                Some(l) => says("Previous: "@ + l@, 0),
            },
        }
    }
}

fn speaker_transport(s: &Speaker, verb: Verb, k: &Known) -> (r: Ask)
    ensures
        forall|c: ConfigV|
            c.to_speaker() && speaker_known(*k) == Some(Some(s@)) ==> r@ == #[trigger] transport_ask(c, verb, *k),
{
    match verb {
        Verb::Pause => match &k.state {
            None => Ask::State,
            Some(st) => {
                let to = heos::toggle(crate::text::opt_as_str(st));
                match k.answer {
                    None => Ask::Request(heos::set_state(s.pid, to.as_str())),
                    Some(_) => say(cat3(s.name.as_str(), " → ", to.as_str()), 0),
                }
            },
        },
        Verb::Stop => match k.answer {
            None => Ask::Request(heos::set_state(s.pid, "stop")),
            Some(_) => say(cat2(s.name.as_str(), " stopped"), 0),
        },
        Verb::Next => match k.answer {
            None => Ask::Request(heos::play_next(s.pid)),
            Some(_) => say(cat2("Next: ", s.name.as_str()), 0),
        },
        Verb::Prev => match k.answer {
            None => Ask::Request(heos::play_previous(s.pid)),
            Some(_) => say(cat2("Previous: ", s.name.as_str()), 0),
        },
    }
}

/// `pause`, `stop`, `next` and `prev`.
pub fn cmd_transport(cfg: &SirenConfig, verb: Verb, k: &Known) -> (r: Ask)
    ensures
        r@ == transport_ask(cfg@, verb, *k),
{
    if cfg.use_heos() {
        return match &k.speaker {
            None => Ask::Speaker(heos_target(cfg, None)),
            Some(None) => fail("no speaker found".to_owned(), 1),
            Some(Some(s)) => speaker_transport(s, verb, k),
        };
    }
    if !k.done {
        return Ask::Local(verb);
    }
    match verb {
        Verb::Pause => say("Playback paused / resumed".to_owned(), 0),
        Verb::Stop => say("Playback stopped".to_owned(), 0),
        Verb::Next => match &k.label_after {
            None => Ask::Label(150),
            Some(l) => say(cat2("Next: ", l.as_str()), 0),
        },
        Verb::Prev => match &k.label_after {
            None => Ask::Label(150),
            Some(l) => say(cat2("Previous: ", l.as_str()), 0),
        },
    }
}

/// What is shown where nothing is playing.
pub open spec fn playing_text(label: Seq<char>) -> Seq<char> {
    if label.len() == 0 {
        "Not playing"@
    } else {
        label
    }
}

fn show_playing(label: &str) -> (s: String)
    ensures
        s@ == playing_text(label@),
{
    if label.is_empty() {
        "Not playing".to_owned()
    } else {
        label.to_owned()
    }
}

/// What `now` asks for.
pub open spec fn now_ask(c: ConfigV, k: Known) -> AskV {
    if c.to_speaker() {
        match speaker_known(k) {
            None => AskV::Speaker(speaker_hint(c, None)),
            Some(None) => fails("no speaker found"@, 1),
            Some(Some(s)) => match status_known(k) {
                None => AskV::Status,
                Some((state, vol)) => says(s.name + " — "@ + state_text(state) + ", "@ + volume_text(vol), 0),
            },
        }
    } else {
        match k.label {
            None => AskV::Label(0),
            Some(l) => says(playing_text(l@), 0),
        }
    }
}

/// `now`: what is playing.
pub fn cmd_now(cfg: &SirenConfig, k: &Known) -> (r: Ask)
    ensures
        r@ == now_ask(cfg@, *k),
{
    if cfg.use_heos() {
        return match &k.speaker {
            None => Ask::Speaker(heos_target(cfg, None)),
            Some(None) => fail("no speaker found".to_owned(), 1),
            Some(Some(s)) => match &k.status {
                None => Ask::Status,
                Some(st) => say(
                    cat5(s.name.as_str(), " — ", show_state(&st.0).as_str(), ", ", show_volume(st.1).as_str()),
                    0,
                ),
            },
        };
    }
    match &k.label {
        None => Ask::Label(0),
        Some(l) => say(show_playing(l.as_str()), 0),
    }
}

/// What `status` asks for; `mpv` is none where it does not run.
pub open spec fn status_ask(c: ConfigV, s: SessionV, mpv: Option<MpvState>, tracks: int, k: Known) -> AskV {
    if c.to_speaker() {
        match speaker_known(k) {
            None => AskV::Speaker(speaker_hint(c, None)),
            Some(None) => fails("no speaker found"@, 1),
            Some(Some(sp)) => match status_known(k) {
                None => AskV::Status,
                Some((state, vol)) => lists(
                    seq![
                        "status: "@ + state_text(state),
                        "speaker: "@ + sp.name + " ("@ + sp.ip + ")"@,
                        "vol:    "@ + volume_text(vol),
                    ],
                    0,
                ),
            },
        }
    } else {
        match mpv {
            None => lists(seq!["status: idle (no mpv)"@, "library tracks: "@ + dec(tracks)], 0),
            Some(m) => lists(status_text(c, s, m), 0),
        }
    }
}

/// The state of an mpv, if it runs.
pub open spec fn mpv_known(m: Option<&MpvState>) -> Option<MpvState> {
    match m {
        Some(m) => Some(*m),
        None => None,
    }
}

/// `status`: what is playing and where; `tracks` is how many the library has.
pub fn cmd_status(cfg: &SirenConfig, s: &Session, mpv: Option<&MpvState>, tracks: usize, k: &Known) -> (r: Ask)
    ensures
        r@ == status_ask(cfg@, s@, mpv_known(mpv), tracks as int, *k),
{
    if cfg.use_heos() {
        return match &k.speaker {
            None => Ask::Speaker(heos_target(cfg, None)),
            Some(None) => fail("no speaker found".to_owned(), 1),
            Some(Some(sp)) => match &k.status {
                None => Ask::Status,
                Some(st) => {
                    let mut out: Vec<String> = Vec::new();
                    out.push(cat2("status: ", show_state(&st.0).as_str()));
                    out.push(cat5("speaker: ", sp.name.as_str(), " (", sp.ip.as_str(), ")"));
                    out.push(cat2("vol:    ", show_volume(st.1).as_str()));
                    assert(views(out@) == seq![
                        "status: "@ + state_text(opt_view(st.0)),
                        "speaker: "@ + sp.name@ + " ("@ + sp.ip@ + ")"@,
                        "vol:    "@ + volume_text(st.1),
                    ]);
                    list(out, 0)
                },
            },
        };
    }
    match mpv {
        None => {
            let mut out: Vec<String> = Vec::new();
            out.push("status: idle (no mpv)".to_owned());
            out.push(cat2("library tracks: ", dec_usize(tracks).as_str()));
            assert(views(out@) == seq!["status: idle (no mpv)"@, "library tracks: "@ + dec(tracks as int)]);
            list(out, 0)
        },
        Some(m) => list(queue::status_lines(cfg, s, Some(m)), 0),
    }
}

// ---- the cache of what is playing ----

/// A number, or null.
pub open spec fn opt_number(n: Option<int>) -> JsonV {
    match n {
        Some(i) => int_v(i),
        None => JsonV::Null,
    }
}

/// A text, or null.
pub open spec fn opt_text(s: Option<Seq<char>>) -> JsonV {
    match s {
        Some(t) => JsonV::Str(t),
        None => JsonV::Null,
    }
}

/// What is playing as JSON; `ts` is the time as text.
pub open spec fn now_json(
    label: Seq<char>,
    output: Seq<char>,
    state: Option<Seq<char>>,
    vol: Option<int>,
    ts: Seq<char>,
) -> JsonV {
    JsonV::Obj(
        seq![
            ("label"@, JsonV::Str(label)),
            ("output"@, JsonV::Str(output)),
            ("state"@, opt_text(state)),
            ("ts"@, real_v(ts)),
            ("vol"@, opt_number(vol)),
        ],
    )
}

/// A number that fits, as a number.
pub open spec fn wide(n: Option<i64>) -> Option<int> {
    match n {
        Some(i) => Some(i as int),
        None => None,
    }
}

fn encode_opt_text(s: Option<&str>) -> (j: Json)
    ensures
        j@ == opt_text(opt_str(s)),
{
    match s {
        Some(t) => json_str(t),
        None => Json::Null,
    }
}

fn encode_opt_number(n: Option<i64>) -> (j: Json)
    ensures
        j@ == opt_number(wide(n)),
{
    match n {
        Some(i) => json_i64(i),
        None => Json::Null,
    }
}

fn encode_now(label: &str, output: &str, state: Option<&str>, vol: Option<i64>, ts: &str) -> (j: Json)
    ensures
        j@ == now_json(label@, output@, opt_str(state), wide(vol), ts@),
{
    let mut o: Vec<(String, Json)> = Vec::new();
    o.push(member_of("label", json_str(label)));
    o.push(member_of("output", json_str(output)));
    o.push(member_of("state", encode_opt_text(state)));
    o.push(member_of("ts", json_real(ts)));
    o.push(member_of("vol", encode_opt_number(vol)));
    assert(members(o@) == seq![
        ("label"@, JsonV::Str(label@)),
        ("output"@, JsonV::Str(output@)),
        ("state"@, opt_text(opt_str(state))),
        ("ts"@, real_v(ts@)),
        ("vol"@, opt_number(wide(vol))),
    ]);
    json_obj(o)
}

/// What the player of this machine says.
pub struct LocalNow {
    pub label: String,
    pub alive: bool,
    pub paused: bool,
    pub volume: Option<i64>,
}

/// The state of the player of this machine.
pub open spec fn local_state(n: LocalNow) -> Seq<char> {
    if !n.alive {
        "idle"@
    } else if n.paused {
        "pause"@
    } else if n.label@.len() == 0 {
        "stop"@
    } else {
        "play"@
    }
}

/// What is playing, where the configuration sends it: on the speaker, as far as one is found,
/// or here.
pub open spec fn snapshot_json(
    c: ConfigV,
    live: Option<(SpeakerV, Option<Seq<char>>, Option<i32>)>,
    here: LocalNow,
    ts: Seq<char>,
) -> JsonV {
    if c.to_speaker() {
        match live {
            Some((s, state, vol)) => now_json(
                s.name + " — "@ + state_text(state),
                "heos"@,
                state,
                match vol {
                    Some(v) => Some(v as int),
                    None => None,
                },
                ts,
            ),
            None => now_json(""@, "heos"@, None, None, ts),
        }
    } else {
        now_json(
            here.label@,
            "local"@,
            Some(local_state(here)),
            wide(here.volume),
            ts,
        )
    }
}

/// What is playing, as the cache keeps it.
pub fn now_snapshot(
    cfg: &SirenConfig,
    live: Option<(&Speaker, &Option<String>, Option<i32>)>,
    here: &LocalNow,
    ts: &str,
) -> (j: Json)
    ensures
        j@ == snapshot_json(
            cfg@,
            match live {
                Some((s, state, vol)) => Some((s@, opt_view(*state), vol)),
                None => None,
            },
            *here,
            ts@,
        ),
{
    if cfg.use_heos() {
        return match live {
            Some((s, state, vol)) => {
                let label = cat3(s.name.as_str(), " — ", show_state(state).as_str());
                let v = match vol {
                    Some(v) => Some(v as i64),
                    None => None,
                };
                encode_now(label.as_str(), "heos", crate::text::opt_as_str(state), v, ts)
            },
            None => encode_now("", "heos", None, None, ts),
        };
    }
    let state = if !here.alive {
        "idle"
    } else if here.paused {
        "pause"
    } else if here.label.as_str().is_empty() {
        "stop"
    } else {
        "play"
    };
    encode_now(here.label.as_str(), "local", Some(state), here.volume, ts)
}

/// The line of a cached snapshot.
pub open spec fn cached_text(raw: Seq<char>) -> Seq<char> {
    playing_text(parsed_or_null(raw).str_or("label"@, ""@))
}

/// The line that shows a cached snapshot.
pub fn cmd_now_cached(raw: &str) -> (s: String)
    ensures
        s@ == cached_text(raw@),
{
    let v = parse_or_null(raw);
    show_playing(v.str_or("label", "").as_str())
}

/// The members of an object; none of another value.
pub open spec fn members_in(v: JsonV) -> Seq<(Seq<char>, JsonV)> {
    match v {
        JsonV::Obj(o) => o,
        _ => Seq::empty(),
    }
}

/// An object with its member `age` set.
pub open spec fn with_age(v: JsonV, age: Seq<char>) -> JsonV {
    JsonV::Obj(members_in(v).filter(|m: (Seq<char>, JsonV)| m.0 != "age"@).push(("age"@, real_v(age))))
}

/// A cached snapshot with its age, which is given as text.
pub fn cached_json(raw: &str, age: &str) -> (j: Json)
    ensures
        j@ == with_age(parsed_or_null(raw@), age@),
{
    let v = parse_or_null(raw);
    let mut o: Vec<(String, Json)> = Vec::new();
    let ghost keep = |m: (Seq<char>, JsonV)| m.0 != "age"@;
    let ghost all = members_in(v@);
    proof {
        reveal(Seq::filter);
    }
    match &v {
        Json::Obj(list) => {
            proof {
                crate::json::lemma_obj(*list);
            }
            assert(all == members(list@));
            assert(all.take(0).filter(keep) == members(o@));
            for i in 0..list.len()
                invariant
                    keep == (|m: (Seq<char>, JsonV)| m.0 != "age"@),
                    all == members(list@),
                    members(o@) == all.take(i as int).filter(keep),
            {
                proof {
                    lemma_filter_take(all, keep, i as int);
                }
                assert(all[i as int] == (list@[i as int].0@, list@[i as int].1@));
                if !same(list[i].0.as_str(), "age") {
                    let ghost before = members(o@);
                    o.push((list[i].0.clone(), list[i].1.copy()));
                    assert(members(o@) == before.push(all[i as int]));
                }
            }
            assert(all.take(all.len() as int) == all);
        },
        _ => {
            assert(all.filter(keep) == members(o@));
        },
    }
    let ghost kept = members(o@);
    o.push(member_of("age", json_real(age)));
    assert(members(o@) == kept.push(("age"@, real_v(age@))));
    json_obj(o)
}

// ---- the queue ----

/// What `queue` is told to do.
pub enum QueueCmd {
    /// Add what this query means, in front or at the end.
    Add(String, bool),
    List,
    Clear,
    Play,
    Next,
    Remove(String),
    Move(String, String),
    /// Nothing that it knows: a line to print.
    Usage(String),
}

/// The model of a [`QueueCmd`].
#[verifier::ext_equal]
pub enum QueueCmdV {
    Add(Seq<char>, bool),
    List,
    Clear,
    Play,
    Next,
    Remove(Seq<char>),
    Move(Seq<char>, Seq<char>),
    Usage(Seq<char>),
}

impl View for QueueCmd {
    type V = QueueCmdV;

    open spec fn view(&self) -> QueueCmdV {
        match self {
            QueueCmd::Add(q, p) => QueueCmdV::Add(q@, *p),
            QueueCmd::List => QueueCmdV::List,
            QueueCmd::Clear => QueueCmdV::Clear,
            QueueCmd::Play => QueueCmdV::Play,
            QueueCmd::Next => QueueCmdV::Next,
            QueueCmd::Remove(i) => QueueCmdV::Remove(i@),
            QueueCmd::Move(a, b) => QueueCmdV::Move(a@, b@),
            QueueCmd::Usage(l) => QueueCmdV::Usage(l@),
        }
    }
}

/// Whether an argument asks for the front of the queue.
pub open spec fn is_next_flag(a: Seq<char>) -> bool {
    a == "--next"@ || a == "-n"@
}

/// What the arguments of `queue add` ask for.
pub open spec fn add_command(args: Seq<Seq<char>>) -> QueueCmdV {
    QueueCmdV::Add(
        join(args.filter(|a: Seq<char>| !is_next_flag(a)), " "@),
        exists|i: int| 0 <= i < args.len() && is_next_flag(#[trigger] args[i]),
    )
}

/// What the arguments of `queue` ask for.
pub open spec fn queue_command(rest: Seq<Seq<char>>) -> QueueCmdV {
    let sub = sub_word(rest);
    if sub == "add"@ || sub == "a"@ {
        add_command(rest.skip(1))
    } else if sub == "list"@ || sub == "l"@ || sub == "ls"@ {
        QueueCmdV::List
    } else if sub == "clear"@ || sub == "c"@ {
        QueueCmdV::Clear
    } else if sub == "play"@ || sub == "p"@ {
        QueueCmdV::Play
    } else if sub == "next"@ || sub == "n"@ {
        QueueCmdV::Next
    } else if sub == "remove"@ || sub == "rm"@ || sub == "del"@ || sub == "d"@ {
        if rest.len() > 1 {
            QueueCmdV::Remove(rest[1])
        } else {
            QueueCmdV::Usage("Usage: siren queue remove <index>"@)
        }
    } else if sub == "move"@ || sub == "mv"@ {
        if rest.len() >= 3 {
            QueueCmdV::Move(rest[1], rest[2])
        } else {
            QueueCmdV::Usage("Usage: siren queue move <from> <to>"@)
        }
    } else {
        QueueCmdV::Usage("Queue commands: add, list, clear, play, next, remove, move"@)
    }
}

fn read_add(args: &Vec<String>) -> (r: QueueCmd)
    ensures
        r@ == add_command(views(args@)),
{
    let mut query: Vec<String> = Vec::new();
    let mut front = false;
    let ghost keep = |a: Seq<char>| !is_next_flag(a);
    let ghost all = views(args@);
    proof {
        reveal(Seq::filter);
    }
    assert(views(query@) == all.take(0).filter(keep));
    for i in 0..args.len()
        invariant
            keep == (|a: Seq<char>| !is_next_flag(a)),
            all == views(args@),
            views(query@) == all.take(i as int).filter(keep),
            front == exists|j: int| 0 <= j < i && is_next_flag(#[trigger] all[j]),
    {
        proof {
            lemma_filter_take(all, keep, i as int);
        }
        assert(all[i as int] == args@[i as int]@);
        if same(args[i].as_str(), "--next") || same(args[i].as_str(), "-n") {
            front = true;
        } else {
            let ghost before = views(query@);
            query.push(args[i].clone());
            assert(views(query@) == before.push(all[i as int]));
        }
    }
    assert(all.take(all.len() as int) == all);
    QueueCmd::Add(joined(&query, " "), front)
}

/// What the arguments of `queue` ask for.
pub fn cmd_queue(rest: &Vec<String>) -> (r: QueueCmd)
    ensures
        r@ == queue_command(views(rest@)),
{
    let sub = read_sub(rest);
    let sub = sub.as_str();
    proof {
        assert(views(rest@).len() == rest.len());
        assert(forall|i: int| 0 <= i < rest.len() ==> views(rest@)[i] == (#[trigger] rest@[i])@);
    }
    if same(sub, "add") || same(sub, "a") {
        proof {
            lemma_no_sub(views(rest@));
        }
        return read_add(&copy_tail(rest, 1));
    }
    if same(sub, "list") || same(sub, "l") || same(sub, "ls") {
        return QueueCmd::List;
    }
    if same(sub, "clear") || same(sub, "c") {
        return QueueCmd::Clear;
    }
    if same(sub, "play") || same(sub, "p") {
        return QueueCmd::Play;
    }
    if same(sub, "next") || same(sub, "n") {
        return QueueCmd::Next;
    }
    if same(sub, "remove") || same(sub, "rm") || same(sub, "del") || same(sub, "d") {
        if rest.len() > 1 {
            return QueueCmd::Remove(rest[1].clone());
        }
        return QueueCmd::Usage("Usage: siren queue remove <index>".to_owned());
    }
    if same(sub, "move") || same(sub, "mv") {
        if rest.len() >= 3 {
            return QueueCmd::Move(rest[1].clone(), rest[2].clone());
        }
        return QueueCmd::Usage("Usage: siren queue move <from> <to>".to_owned());
    }
    QueueCmd::Usage("Queue commands: add, list, clear, play, next, remove, move".to_owned())
}

proof fn lemma_no_sub(rest: Seq<Seq<char>>)
    requires
        sub_word(rest) == "add"@ || sub_word(rest) == "a"@,
    ensures
        rest.len() > 0,
{
    reveal_strlit("add");
    reveal_strlit("a");
    reveal_strlit("");
    assert("add"@.len() == 3 && "a"@.len() == 1 && ""@.len() == 0);
}

// ---- playlists ----

/// What `playlist` is told to do.
pub enum ListCmd {
    Save(String),
    Load(String),
    List,
    Remove(String),
    /// Nothing that it knows: a line to print.
    Usage(String),
}

/// The model of a [`ListCmd`].
#[verifier::ext_equal]
pub enum ListCmdV {
    Save(Seq<char>),
    Load(Seq<char>),
    List,
    Remove(Seq<char>),
    Usage(Seq<char>),
}

impl View for ListCmd {
    type V = ListCmdV;

    open spec fn view(&self) -> ListCmdV {
        match self {
            ListCmd::Save(n) => ListCmdV::Save(n@),
            ListCmd::Load(n) => ListCmdV::Load(n@),
            ListCmd::List => ListCmdV::List,
            ListCmd::Remove(n) => ListCmdV::Remove(n@),
            ListCmd::Usage(l) => ListCmdV::Usage(l@),
        }
    }
}

/// What the arguments of `playlist` ask for. A playlist to load is looked up among the saved
/// ones; where none fits, its name is taken as it stands.
pub open spec fn playlist_command(rest: Seq<Seq<char>>, names: Seq<Seq<char>>) -> ListCmdV {
    let sub = sub_word(rest);
    if sub == "save"@ {
        if rest.len() < 2 {
            ListCmdV::Usage("Usage: siren playlist save <name>"@)
        } else {
            ListCmdV::Save(rest[1])
        }
    } else if sub == "load"@ {
        if rest.len() < 2 {
            ListCmdV::Usage("Usage: siren playlist load <name>"@)
        } else {
            match found_name(names, rest[1]) {
                Some(n) => ListCmdV::Load(n),
                None => ListCmdV::Load(rest[1]),
            }
        }
    } else if sub == "list"@ || sub == "ls"@ {
        ListCmdV::List
    } else if sub == "remove"@ || sub == "rm"@ || sub == "del"@ {
        if rest.len() < 2 {
            ListCmdV::Usage("Usage: siren playlist remove <name>"@)
        } else {
            ListCmdV::Remove(rest[1])
        }
    } else {
        ListCmdV::Usage("Playlist commands: save, load, list, remove"@)
    }
}

/// What the arguments of `playlist` ask for.
pub fn cmd_playlist(rest: &Vec<String>, names: &Vec<String>) -> (r: ListCmd)
    ensures
        r@ == playlist_command(views(rest@), views(names@)),
{
    let sub = read_sub(rest);
    let sub = sub.as_str();
    proof {
        assert(views(rest@).len() == rest.len());
        assert(forall|i: int| 0 <= i < rest.len() ==> views(rest@)[i] == (#[trigger] rest@[i])@);
    }
    if same(sub, "save") {
        if rest.len() < 2 {
            return ListCmd::Usage("Usage: siren playlist save <name>".to_owned());
        }
        return ListCmd::Save(rest[1].clone());
    }
    if same(sub, "load") {
        if rest.len() < 2 {
            return ListCmd::Usage("Usage: siren playlist load <name>".to_owned());
        }
        return match find(names, rest[1].as_str()) {
            Some(n) => ListCmd::Load(n),
            None => ListCmd::Load(rest[1].clone()),
        };
    }
    if same(sub, "list") || same(sub, "ls") {
        return ListCmd::List;
    }
    if same(sub, "remove") || same(sub, "rm") || same(sub, "del") {
        if rest.len() < 2 {
            return ListCmd::Usage("Usage: siren playlist remove <name>".to_owned());
        }
        return ListCmd::Remove(rest[1].clone());
    }
    ListCmd::Usage("Playlist commands: save, load, list, remove".to_owned())
}

/// The lines that list the playlists.
pub open spec fn name_lines(names: Seq<Seq<char>>) -> Seq<Seq<char>> {
    if names.len() == 0 {
        seq!["(no saved playlists)"@]
    } else {
        Seq::new(names.len(), |i: int| "  "@ + names[i])
    }
}

/// Lists the playlists.
pub fn list_playlists(names: &Vec<String>) -> (r: Ask)
    ensures
        r@ == lists(name_lines(views(names@)), 0),
{
    let ghost all = views(names@);
    assert(all.len() == names.len());
    let mut out: Vec<String> = Vec::new();
    if names.len() == 0 {
        let r = one("(no saved playlists)".to_owned());
        return list(r, 0);
    }
    for i in 0..names.len()
        invariant
            all == views(names@),
            out.len() == i,
            forall|j: int| 0 <= j < i ==> (#[trigger] out@[j])@ == "  "@ + all[j],
    {
        out.push(cat2("  ", names[i].as_str()));
    }
    assert(views(out@) == name_lines(all));
    list(out, 0)
}

/// The report of a saved playlist.
pub fn report_saved(name: &str, saved: bool) -> (r: Ask)
    ensures
        r@ == if saved {
            says("Saved playlist: "@ + name@, 0)
        } else {
            says("Failed to save playlist."@, 1)
        },
{
    if saved {
        say(cat2("Saved playlist: ", name), 0)
    } else {
        say("Failed to save playlist.".to_owned(), 1)
    }
}

/// The report of a deleted playlist.
pub fn report_deleted(name: &str, gone: bool) -> (r: Ask)
    ensures
        r@ == if gone {
            says("Deleted playlist: "@ + name@, 0)
        } else {
            says("Playlist not found: "@ + name@, 1)
        },
{
    if gone {
        say(cat2("Deleted playlist: ", name), 0)
    } else {
        say(cat2("Playlist not found: ", name), 1)
    }
}

// ---- the sleep timer ----

/// What `sleep` is told to do.
pub enum SleepCmd {
    /// Show the time that is left.
    Show,
    /// Take the timer back.
    Off,
    /// Set it to this many minutes.
    After(String),
}

/// The model of a [`SleepCmd`].
#[verifier::ext_equal]
pub enum SleepCmdV {
    Show,
    Off,
    After(Seq<char>),
}

impl View for SleepCmd {
    type V = SleepCmdV;

    open spec fn view(&self) -> SleepCmdV {
        match self {
            SleepCmd::Show => SleepCmdV::Show,
            SleepCmd::Off => SleepCmdV::Off,
            SleepCmd::After(m) => SleepCmdV::After(m@),
        }
    }
}

/// What the arguments of `sleep` ask for.
pub open spec fn sleep_command(args: Seq<Seq<char>>) -> SleepCmdV {
    let sub = sub_word(args);
    if sub == ""@ {
        SleepCmdV::Show
    } else if sub == "off"@ || sub == "cancel"@ || sub == "stop"@ {
        SleepCmdV::Off
    } else {
        SleepCmdV::After(sub)
    }
}

/// What the arguments of `sleep` ask for.
pub fn cmd_sleep(args: &Vec<String>) -> (r: SleepCmd)
    ensures
        r@ == sleep_command(views(args@)),
{
    let sub = read_sub(args);
    if same(sub.as_str(), "") {
        SleepCmd::Show
    } else if same(sub.as_str(), "off") || same(sub.as_str(), "cancel") || same(sub.as_str(), "stop") {
        SleepCmd::Off
    } else {
        SleepCmd::After(sub)
    }
}

/// The first line that mentions the timer.
pub open spec fn timer_line(ls: Seq<Seq<char>>) -> Option<Seq<char>>
    decreases ls.len(),
{
    if ls.len() == 0 {
        None
    } else if has(ls[0], "siren-sleep"@) {
        Some(ls[0])
    } else {
        timer_line(ls.skip(1))
    }
}

/// The time that is left, as a line of the listing gives it. The time of the next run comes
/// first, in four words or as `n/a`; what is left follows.
pub open spec fn time_left(line: Seq<char>) -> Seq<char> {
    let toks = words(line);
    if toks.len() > 0 && toks[0] == "n/a"@ {
        if toks.len() > 1 {
            toks[1]
        } else {
            "?"@
        }
    } else if toks.len() > 4 {
        if toks.len() > 5 && toks[5] == "left"@ {
            toks[4] + " left"@
        } else {
            toks[4]
        }
    } else {
        "?"@
    }
}

/// The line that shows the timer, from a listing of the timers.
pub open spec fn sleep_text(listing: Seq<char>) -> Seq<char> {
    match timer_line(lines(listing)) {
        Some(l) => "sleep: stops in "@ + time_left(l),
        None => "sleep: off"@,
    }
}

fn read_left(line: &str) -> (s: String)
    ensures
        s@ == time_left(line@),
{
    let toks = words_of(line);
    proof {
        assert(views(toks@).len() == toks.len());
        assert(forall|i: int| 0 <= i < toks.len() ==> views(toks@)[i] == (#[trigger] toks@[i])@);
    }
    if toks.len() > 0 && same(toks[0].as_str(), "n/a") {
        if toks.len() > 1 {
            toks[1].clone()
        } else {
            "?".to_owned()
        }
    } else if toks.len() > 4 {
        if toks.len() > 5 && same(toks[5].as_str(), "left") {
            cat2(toks[4].as_str(), " left")
        } else {
            toks[4].clone()
        }
    } else {
        "?".to_owned()
    }
}

/// The line that shows the timer.
pub fn sleep_status(listing: &str) -> (s: String)
    ensures
        s@ == sleep_text(listing@),
{
    let ls = lines_of(listing);
    let ghost all = views(ls@);
    assert(all.skip(0) == all);
    for i in 0..ls.len()
        invariant
            all == views(ls@),
            all == lines(listing@),
            timer_line(all) == timer_line(all.skip(i as int)),
    {
        assert(all.skip(i as int)[0] == ls@[i as int]@);
        assert(all.skip(i as int).skip(1) == all.skip(i + 1));
        if contains(ls[i].as_str(), "siren-sleep") {
            return cat2("sleep: stops in ", read_left(ls[i].as_str()).as_str());
        }
    }
    "sleep: off".to_owned()
}

/// The arguments that list the timers.
pub fn sleep_list_args() -> (r: Vec<String>)
    ensures
        views(r@) == seq!["list-timers"@, "--no-legend"@, "--no-pager"@],
{
    let mut r: Vec<String> = Vec::new();
    r.push("list-timers".to_owned());
    r.push("--no-legend".to_owned());
    r.push("--no-pager".to_owned());
    assert(views(r@) == seq!["list-timers"@, "--no-legend"@, "--no-pager"@]);
    r
}

/// The arguments that take the timer back.
pub fn sleep_stop_args() -> (r: Vec<String>)
    ensures
        views(r@) == seq!["stop"@, "siren-sleep.timer"@],
{
    let mut r: Vec<String> = Vec::new();
    r.push("stop".to_owned());
    r.push("siren-sleep.timer".to_owned());
    assert(views(r@) == seq!["stop"@, "siren-sleep.timer"@]);
    r
}

/// The arguments that forget a timer that failed.
pub fn sleep_reset_args() -> (r: Vec<String>)
    ensures
        views(r@) == seq!["reset-failed"@, "siren-sleep.*"@],
{
    let mut r: Vec<String> = Vec::new();
    r.push("reset-failed".to_owned());
    r.push("siren-sleep.*".to_owned());
    assert(views(r@) == seq!["reset-failed"@, "siren-sleep.*"@]);
    r
}

/// The arguments that set the timer to some minutes.
pub open spec fn sleep_argv(mins: Seq<char>, home: Seq<char>) -> Seq<Seq<char>> {
    seq![
        "--user"@,
        "--quiet"@,
        "--on-active="@ + mins + "min"@,
        "--unit=siren-sleep"@,
        home + "/bin/siren"@,
        "stop"@,
    ]
}

/// The arguments that set the timer to some minutes.
pub fn sleep_args(mins: &str, home: &str) -> (r: Vec<String>)
    ensures
        views(r@) == sleep_argv(mins@, home@),
{
    let mut r: Vec<String> = Vec::new();
    r.push("--user".to_owned());
    r.push("--quiet".to_owned());
    r.push(cat3("--on-active=", mins, "min"));
    r.push("--unit=siren-sleep".to_owned());
    r.push(cat2(home, "/bin/siren"));
    r.push("stop".to_owned());
    assert(views(r@) == sleep_argv(mins@, home@));
    r
}

/// The report of a timer that was taken back.
pub fn sleep_off_report() -> (r: Ask)
    ensures
        r@ == says("sleep: off"@, 0),
{
    say("sleep: off".to_owned(), 0)
}

/// The report of a timer: none are minutes that are not above zero.
pub fn sleep_report(mins: Option<&str>, started: bool) -> (r: Ask)
    ensures
        r@ == match opt_str(mins) {
            None => fails("usage: siren sleep [minutes|off]"@, 2),
            Some(m) => if started {
                says("sleep: stops in "@ + m + "min"@, 0)
            } else {
                fails("sleep: systemd-run failed (user manager up?)"@, 1)
            },
        },
{
    match mins {
        None => fail("usage: siren sleep [minutes|off]".to_owned(), 2),
        Some(m) => {
            if started {
                say(cat3("sleep: stops in ", m, "min"), 0)
            } else {
                fail("sleep: systemd-run failed (user manager up?)".to_owned(), 1)
            }
        },
    }
}

/// A path with a leading `~/` put behind the home directory.
pub fn shellexpand(p: &str, home: &str) -> (r: String)
    ensures
        r@ == match after_prefix(p@, "~/"@) {
            Some(rest) => home@ + "/"@ + rest,
            None => p@,
        },
{
    match strip_prefix(p, "~/") {
        Some(rest) => cat3(home, "/", rest.as_str()),
        None => p.to_owned(),
    }
}

// ---- trove ----

/// The format that arguments name, in lower case, and the arguments without that; read from
/// the `i`th on. The last naming counts; one without a name changes nothing.
pub open spec fn split_format(
    args: Seq<Seq<char>>,
    i: int,
    format: Option<Seq<char>>,
    rest: Seq<Seq<char>>,
) -> (Option<Seq<char>>, Seq<Seq<char>>)
    decreases args.len() - i,
{
    if i < 0 || i >= args.len() {
        (format, rest)
    } else if args[i] == "--format"@ {
        if i + 1 < args.len() {
            split_format(args, i + 2, Some(lower(args[i + 1])), rest)
        } else {
            (format, rest)
        }
    } else {
        match after_prefix(args[i], "--format="@) {
            Some(v) => split_format(args, i + 1, Some(lower(v)), rest),
            None => split_format(args, i + 1, format, rest.push(args[i])),
        }
    }
}

/// The format that arguments name, and the arguments without that.
pub open spec fn format_args(args: Seq<Seq<char>>) -> (Option<Seq<char>>, Seq<Seq<char>>) {
    split_format(args, 0, None, Seq::empty())
}

/// Takes a format out of arguments.
pub fn trove_format_arg(args: &Vec<String>) -> (r: (Option<String>, Vec<String>))
    ensures
        (opt_view(r.0), views(r.1@)) == format_args(views(args@)),
{
    let mut format: Option<String> = None;
    let mut rest: Vec<String> = Vec::new();
    let mut i: usize = 0;
    let ghost all = views(args@);
    assert(views(rest@) == Seq::<Seq<char>>::empty());
    while i < args.len()
        invariant
            all == views(args@),
            i <= args.len(),
            split_format(all, i as int, opt_view(format), views(rest@)) == format_args(all),
        decreases args.len() - i,
    {
        assert(all[i as int] == args@[i as int]@);
        let a = args[i].as_str();
        if same(a, "--format") {
            if i + 1 < args.len() {
                assert(all[i + 1] == args@[i + 1]@);
                format = Some(lowered(args[i + 1].as_str()));
                i = i + 2;
            } else {
                return (format, rest);
            }
        } else {
            match strip_prefix(a, "--format=") {
                Some(v) => {
                    format = Some(lowered(v.as_str()));
                },
                None => {
                    let ghost before = views(rest@);
                    rest.push(args[i].clone());
                    assert(views(rest@) == before.push(all[i as int]));
                },
            }
            i = i + 1;
        }
    }
    (format, rest)
}

/// What `trove` is told to do.
pub enum TroveCmd {
    /// Search for words, so many results at a time.
    Search(u32, Vec<String>),
    /// Fetch an item.
    Get(String),
    /// Say what it is for.
    About(Vec<String>),
    /// An error of use.
    Usage(String),
}

/// The model of a [`TroveCmd`].
#[verifier::ext_equal]
pub enum TroveCmdV {
    Search(int, Seq<Seq<char>>),
    Get(Seq<char>),
    About(Seq<Seq<char>>),
    Usage(Seq<char>),
}

impl View for TroveCmd {
    type V = TroveCmdV;

    open spec fn view(&self) -> TroveCmdV {
        match self {
            TroveCmd::Search(n, w) => TroveCmdV::Search(*n as int, views(w@)),
            TroveCmd::Get(i) => TroveCmdV::Get(i@),
            TroveCmd::About(l) => TroveCmdV::About(views(l@)),
            TroveCmd::Usage(l) => TroveCmdV::Usage(l@),
        }
    }
}

/// The lines of what `trove` is for, set in by two.
pub open spec fn about_shown() -> Seq<Seq<char>> {
    Seq::new(about_lines().len(), |i: int| "  "@ + about_lines()[i])
}

/// What the arguments of `trove` ask for, without those of a format.
pub open spec fn trove_words(args: Seq<Seq<char>>) -> TroveCmdV {
    let sub = sub_word(args);
    if args.len() == 0 {
        TroveCmdV::Search(10, args)
    } else if sub == "get"@ || sub == "g"@ {
        if args.len() < 2 {
            TroveCmdV::Usage("usage: siren trove get <identifier> [--format EXT|all]"@)
        } else {
            TroveCmdV::Get(args[1])
        }
    } else if sub == "about"@ || sub == "help"@ || sub == "-h"@ || sub == "--help"@ {
        TroveCmdV::About(about_shown())
    } else {
        match int_in(args[0], 0, u32::MAX as int) {
            Some(n) => TroveCmdV::Search(n, args.skip(1)),
            None => TroveCmdV::Search(10, args),
        }
    }
}

fn show_about() -> (r: Vec<String>)
    ensures
        views(r@) == about_shown(),
{
    let text = about_text();
    let ghost all = views(text@);
    assert(all.len() == text.len());
    let mut out: Vec<String> = Vec::new();
    for i in 0..text.len()
        invariant
            all == views(text@),
            out.len() == i,
            forall|j: int| 0 <= j < i ==> (#[trigger] out@[j])@ == "  "@ + all[j],
    {
        out.push(cat2("  ", text[i].as_str()));
    }
    assert(views(out@) == about_shown());
    out
}

/// What the arguments of `trove` ask for, and in which format.
pub fn cmd_trove(args: &Vec<String>) -> (r: (Option<String>, TroveCmd))
    ensures
        opt_view(r.0) == format_args(views(args@)).0,
        r.1@ == trove_words(format_args(views(args@)).1),
{
    let (format, rest) = trove_format_arg(args);
    proof {
        assert(views(rest@).len() == rest.len());
        assert(forall|i: int| 0 <= i < rest.len() ==> views(rest@)[i] == (#[trigger] rest@[i])@);
    }
    if rest.len() == 0 {
        return (format, TroveCmd::Search(10, rest));
    }
    let sub = read_sub(&rest);
    let sub = sub.as_str();
    if same(sub, "get") || same(sub, "g") {
        if rest.len() < 2 {
            return (format, TroveCmd::Usage("usage: siren trove get <identifier> [--format EXT|all]".to_owned()));
        }
        return (format, TroveCmd::Get(rest[1].clone()));
    }
    if same(sub, "about") || same(sub, "help") || same(sub, "-h") || same(sub, "--help") {
        return (format, TroveCmd::About(show_about()));
    }
    match parse_u32(rest[0].as_str()) {
        Some(n) => (format, TroveCmd::Search(n, copy_tail(&rest, 1))),
        None => (format, TroveCmd::Search(10, rest)),
    }
}

// ---- laws ----

/// Whether what is asked for is not known yet, or is not asked at all.
pub open spec fn asks_new(a: AskV, k: Known) -> bool {
    match a {
        AskV::Speaker(_) => k.speaker is None,
        AskV::Status => k.status is None,
        AskV::Request(_) => k.answer is None,
        AskV::Entries => k.entries is None,
        AskV::Cast(_, _) => k.cast is None,
        AskV::CastMany(_, _) => k.casts is None,
        AskV::Save(_) => k.saved is None,
        AskV::NowPath => k.now is None,
        AskV::LibraryTop => k.top is None,
        AskV::PlaylistCount => k.count is None,
        AskV::Mpv(_) => k.sent < 2,
        AskV::Label(ms) => if ms == 0 {
            k.label is None
        } else {
            k.label_after is None
        },
        AskV::Names => k.names is None,
        AskV::Resolve => k.hits is None,
        AskV::State => k.state is None,
        AskV::Local(_) => !k.done,
        AskV::PlayList(_) => true,
        AskV::Start(_, _) => true,
        AskV::End(_) => true,
    }
}

/// No command asks twice for the same thing: whatever it asks for is not known yet. So each
/// ends after finitely many answers.
pub proof fn law_commands_ask_once(
    c: ConfigV,
    cmd: AudioCmdV,
    queued: Option<Seq<char>>,
    args: Seq<Seq<char>>,
    hint: Option<Seq<char>>,
    what: Option<Seq<char>>,
    next: bool,
    append: bool,
    verb: Verb,
    chance: int,
    k: Known,
)
    ensures
        asks_new(audio_ask(c, cmd, queued, k), k),
        asks_new(speaker_queue_ask(c, args, k), k),
        asks_new(cast_ask(c, args, hint, next, append, k), k),
        asks_new(paths_ask(c, args, what, k), k),
        asks_new(play_ask(c, args, k), k),
        asks_new(random_ask(c, args, chance, k), k),
        asks_new(transport_ask(c, verb, k), k),
        asks_new(now_ask(c, k), k),
        asks_new(config_ask(c, hint, what, queued, trouble(k.saved)), k),
{
    lemma_queue_asks_once(c, args, k);
    match cmd {
        AudioCmdV::Queue(a) => {
            lemma_queue_asks_once(c, a, k);
        },
        _ => {},
    }
}

proof fn lemma_queue_asks_once(c: ConfigV, args: Seq<Seq<char>>, k: Known)
    ensures
        asks_new(speaker_queue_ask(c, args, k), k),
{
}

/// The speaker's queue is only changed at entries that it has: a request about one is sent
/// only where the number is one of the listing.
pub proof fn law_queue_requests_are_listed(c: ConfigV, args: Seq<Seq<char>>, k: Known)
    requires
        speaker_queue_ask(c, args, k) is Request,
        sub_word(speaker_args(args).1) != "clear"@,
        sub_word(speaker_args(args).1) != "c"@,
    ensures
        k.entries is Some,
        1 <= number_at(speaker_args(args).1, 1) <= k.entries->0.len(),
{
}

/// A command whose audio goes to the speaker asks nothing of the player of this machine.
pub proof fn law_speaker_leaves_player_alone(c: ConfigV, args: Seq<Seq<char>>, verb: Verb, chance: int, k: Known)
    requires
        c.to_speaker(),
    ensures
        !(play_ask(c, args, k) is Mpv),
        !(play_ask(c, args, k) is Start),
        !(transport_ask(c, verb, k) is Local),
        !(random_ask(c, args, chance, k) is Start),
        !(now_ask(c, k) is Label),
{
}

/// The first match is cast, in the way that was wished: at once, behind what plays, or at the end;
/// what plays at once is noted. Without a match, nothing is.
pub proof fn law_first_match_is_cast(c: ConfigV, query: Seq<Seq<char>>, hint: Option<Seq<char>>, k: Known, hits: Seq<Seq<char>>, s: SpeakerV)
    requires
        hits_known(k) == Some(hits),
    ensures
        hits.len() == 0 ==> cast_ask(c, query, hint, false, false, k) == says("No tracks match: "@ + join(query, " "@), 1),
        hits.len() > 0 && k.speaker is None ==> cast_ask(c, query, hint, false, false, k) == AskV::Speaker(
            speaker_hint(c, hint),
        ),
        hits.len() > 0 && speaker_known(k) == Some(Some(s)) && k.cast is None ==> {
            &&& cast_ask(c, query, hint, false, false, k) == AskV::Cast(hits[0], 1)
            &&& cast_ask(c, query, hint, true, false, k) == AskV::Cast(hits[0], 2)
            &&& cast_ask(c, query, hint, false, true, k) == AskV::Cast(hits[0], 3)
        },
        hits.len() > 0 && speaker_known(k) == Some(Some(s)) && k.cast == Some(None::<String>) ==> {
            &&& cast_ask(c, query, hint, false, false, k) matches AskV::End(r) && r.code == 0 && r.note == Some(hits[0])
                && r.out == seq!["cast "@ + hits[0] + " → "@ + s.name + ""@]
            &&& cast_ask(c, query, hint, true, false, k) matches AskV::End(r) && r.code == 0 && r.note is None
            &&& cast_ask(c, query, hint, false, true, k) matches AskV::End(r) && r.code == 0 && r.note is None
        },
        hits.len() > 0 && speaker_known(k) == Some(None::<SpeakerV>) ==> (cast_ask(c, query, hint, false, false, k) matches AskV::End(
            r,
        ) && r.code == 1),
{
}

/// Playing here: words that name one playlist put that on; other words put on all tracks that they
/// mean, in the order of the matches. Without words, what mpv holds is gone on with, and where it
/// holds nothing the whole library is put on.
pub proof fn law_words_are_played(c: ConfigV, rest: Seq<Seq<char>>, k: Known, hits: Seq<Seq<char>>, name: Seq<char>)
    requires
        c.audio_output != "heos"@,
    ensures
        rest.len() > 1 && hits_known(k) == Some(hits) && hits.len() > 0 ==> play_ask(c, rest, k) == AskV::Start(hits, false),
        rest.len() > 1 && k.hits is None ==> play_ask(c, rest, k) == AskV::Resolve,
        rest.len() == 1 && k.names is None ==> play_ask(c, rest, k) == AskV::Names,
        rest.len() == 1 && k.names is Some && found_name(views(k.names->0@), rest[0]) == Some(name) ==> play_ask(c, rest, k)
            == AskV::PlayList(name),
        rest.len() == 1 && k.names is Some && found_name(views(k.names->0@), rest[0]) is None && hits_known(k) == Some(hits)
            && hits.len() > 0 ==> play_ask(c, rest, k) == AskV::Start(hits, false),
        rest.len() == 0 && k.count is None ==> play_ask(c, rest, k) == AskV::PlaylistCount,
        rest.len() == 0 && k.count == Some(0i64) && hits_known(k) == Some(hits) && hits.len() > 0 ==> play_ask(c, rest, k)
            == AskV::Start(hits, false),
        rest.len() == 0 && k.count is Some && k.count->0 > 0 && k.sent == 0 ==> play_ask(c, rest, k) == AskV::Mpv(
            JsonV::Arr(seq![JsonV::Str("set_property"@), JsonV::Str("pause"@), JsonV::Bool(false)]),
        ),
        rest.len() > 0 && hits_known(k) == Some(hits) && hits.len() == 0 && (rest.len() > 1 || (k.names is Some && found_name(
            views(k.names->0@),
            rest[0],
        ) is None)) ==> (play_ask(c, rest, k) matches AskV::End(r) && r.code == 1),
{
}

/// The transport keys do on the speaker what they say: pause changes between pausing and playing,
/// by what the speaker does, and the others are sent as they are. Here they are handed to the
/// player.
pub proof fn law_transport_is_sent(c: ConfigV, k: Known, s: SpeakerV, verb: Verb)
    ensures
        c.audio_output != "heos"@ && !k.done ==> transport_ask(c, verb, k) == AskV::Local(verb),
        c.audio_output == "heos"@ && speaker_known(k) == Some(Some(s)) && k.answer is None ==> {
            let to = "?pid="@ + dec(s.pid as int);
            &&& transport_ask(c, Verb::Stop, k) == AskV::Request("heos://player/"@ + "set_play_state"@ + to + "&state="@ + "stop"@)
            &&& transport_ask(c, Verb::Next, k) == AskV::Request("heos://player/"@ + "play_next"@ + to)
            &&& transport_ask(c, Verb::Prev, k) == AskV::Request("heos://player/"@ + "play_previous"@ + to)
            &&& k.state is None ==> transport_ask(c, Verb::Pause, k) == AskV::State
            &&& trouble(k.state) == Some(Some("play"@)) ==> transport_ask(c, Verb::Pause, k) == AskV::Request(
                "heos://player/"@ + "set_play_state"@ + to + "&state="@ + "pause"@,
            )
            &&& trouble(k.state) == Some(Some("pause"@)) ==> transport_ask(c, Verb::Pause, k) == AskV::Request(
                "heos://player/"@ + "set_play_state"@ + to + "&state="@ + "play"@,
            )
        },
{
    reveal_strlit("play");
    reveal_strlit("pause");
    assert("play"@.len() == 4 && "pause"@.len() == 5);
    let to = "?pid="@ + dec(s.pid as int);
    lemma_uri_parts("set_play_state"@, s.pid);
    lemma_uri_parts("play_next"@, s.pid);
    lemma_uri_parts("play_previous"@, s.pid);
}

proof fn lemma_uri_parts(verb: Seq<char>, pid: i64)
    ensures
        player_uri(verb, pid) == "heos://player/"@ + verb + ("?pid="@ + dec(pid as int)),
{
    assert("heos://player/"@ + verb + "?pid="@ + dec(pid as int) =~= "heos://player/"@ + verb + ("?pid="@ + dec(pid as int)));
}

/// At random the whole library is put on, shuffled; a speaker gets one of its tracks, at once.
pub proof fn law_random_is_of_the_library(c: ConfigV, lib: Seq<Seq<char>>, chance: int, k: Known, s: SpeakerV)
    requires
        chance >= 0,
        lib.len() > 0,
    ensures
        c.audio_output != "heos"@ ==> random_ask(c, lib, chance, k) == AskV::Start(lib, true),
        c.audio_output == "heos"@ && speaker_known(k) == Some(Some(s)) && k.cast is None ==> (random_ask(
            c,
            lib,
            chance,
            k,
        ) matches AskV::Cast(p, aid) && lib.contains(p) && aid == 1),
        c.audio_output == "heos"@ && speaker_known(k) == Some(Some(s)) && k.cast is None && chance < lib.len() ==> random_ask(
            c,
            lib,
            chance,
            k,
        ) == AskV::Cast(lib[chance], 1),
{
    let n = lib.len() as int;
    assert(0 <= chance % n < n) by (nonlinear_arith)
        requires
            n > 0,
    ;
    assert(lib.contains(lib[chance % n]));
    if chance < n {
        assert(chance % n == chance) by (nonlinear_arith)
            requires
                0 <= chance < n,
        ;
    }
}

/// Matches are listed by their places, counted from one, and by their paths, twenty at most; how
/// many more there are is said.
pub proof fn law_matches_are_listed(hits: Seq<Seq<char>>, i: int)
    ensures
        hits.len() <= 20 ==> match_lines(hits).len() == hits.len(),
        hits.len() > 20 ==> match_lines(hits).len() == 21 && match_lines(hits).last() == "… "@ + dec(hits.len() - 20) + " more"@,
        0 <= i < hits.len() && i < 20 ==> crate::text::ends(match_lines(hits)[i], dec(i + 1) + ". "@ + hits[i]),
{
    if 0 <= i < hits.len() && i < 20 {
        let d = dec(i + 1);
        let gap = pad(d, 3).take(pad(d, 3).len() - d.len());
        assert(pad(d, 3) =~= gap + d);
        let tail = d + ". "@ + hits[i];
        assert(gap + d + ". "@ + hits[i] =~= gap + tail);
        crate::text::law_has_is_contains(gap, tail, Seq::empty());
    }
}

/// What the first word of `queue` means, and that the words behind it are taken as they stand.
pub proof fn law_queue_words(rest: Seq<Seq<char>>)
    requires
        rest.len() > 0,
    ensures
        ({
            let sub = lower(rest[0]);
            &&& sub == "add"@ || sub == "a"@ ==> queue_command(rest) == add_command(rest.skip(1))
            &&& sub == "list"@ || sub == "l"@ || sub == "ls"@ ==> queue_command(rest) is List
            &&& sub == "clear"@ || sub == "c"@ ==> queue_command(rest) is Clear
            &&& sub == "play"@ || sub == "p"@ ==> queue_command(rest) is Play
            &&& sub == "next"@ || sub == "n"@ ==> queue_command(rest) is Next
            &&& (sub == "remove"@ || sub == "rm"@ || sub == "del"@ || sub == "d"@) && rest.len() > 1 ==> queue_command(rest)
                == QueueCmdV::Remove(rest[1])
            &&& (sub == "move"@ || sub == "mv"@) && rest.len() > 2 ==> queue_command(rest) == QueueCmdV::Move(rest[1], rest[2])
            &&& (sub == "move"@ || sub == "mv"@) && rest.len() <= 2 ==> queue_command(rest) is Usage
        }),
{
    reveal_strlit("add");
    reveal_strlit("a");
    reveal_strlit("list");
    reveal_strlit("l");
    reveal_strlit("ls");
    reveal_strlit("clear");
    reveal_strlit("c");
    reveal_strlit("play");
    reveal_strlit("p");
    reveal_strlit("next");
    reveal_strlit("n");
    reveal_strlit("remove");
    reveal_strlit("rm");
    reveal_strlit("del");
    reveal_strlit("d");
    reveal_strlit("move");
    reveal_strlit("mv");
    assert("add"@.len() == 3);
    assert("a"@.len() == 1);
    assert("list"@.len() == 4);
    assert("l"@.len() == 1);
    assert("ls"@.len() == 2);
    assert("clear"@.len() == 5);
    assert("c"@.len() == 1);
    assert("play"@.len() == 4);
    assert("p"@.len() == 1);
    assert("next"@.len() == 4);
    assert("n"@.len() == 1);
    assert("remove"@.len() == 6);
    assert("rm"@.len() == 2);
    assert("del"@.len() == 3);
    assert("d"@.len() == 1);
    assert("move"@.len() == 4);
    assert("mv"@.len() == 2);
    assert("l"@[0] != "a"@[0]);
    assert("c"@[0] != "a"@[0]);
    assert("c"@[0] != "l"@[0]);
    assert("play"@[0] != "list"@[0]);
    assert("p"@[0] != "a"@[0]);
    assert("p"@[0] != "l"@[0]);
    assert("p"@[0] != "c"@[0]);
    assert("next"@[0] != "list"@[0]);
    assert("next"@[0] != "play"@[0]);
    assert("n"@[0] != "a"@[0]);
    assert("n"@[0] != "l"@[0]);
    assert("n"@[0] != "c"@[0]);
    assert("n"@[0] != "p"@[0]);
    assert("rm"@[0] != "ls"@[0]);
    assert("del"@[0] != "add"@[0]);
    assert("d"@[0] != "a"@[0]);
    assert("d"@[0] != "l"@[0]);
    assert("d"@[0] != "c"@[0]);
    assert("d"@[0] != "p"@[0]);
    assert("d"@[0] != "n"@[0]);
    assert("move"@[0] != "list"@[0]);
    assert("move"@[0] != "play"@[0]);
    assert("move"@[0] != "next"@[0]);
    assert("mv"@[0] != "ls"@[0]);
    assert("mv"@[0] != "rm"@[0]);
}

/// What is added is the query that the words make up; `--next`, wherever it stands, is no word of
/// it but puts it in front.
pub proof fn law_added_in_front(a: Seq<Seq<char>>, b: Seq<Seq<char>>)
    requires
        forall|i: int| 0 <= i < a.len() ==> #[trigger] a[i] != "--next"@ && a[i] != "-n"@,
        forall|i: int| 0 <= i < b.len() ==> #[trigger] b[i] != "--next"@ && b[i] != "-n"@,
    ensures
        add_command(a + b) == QueueCmdV::Add(join(a + b, " "@), false),
        add_command(a.push("--next"@) + b) == QueueCmdV::Add(join(a + b, " "@), true),
        add_command(a.push("-n"@) + b) == QueueCmdV::Add(join(a + b, " "@), true),
{
    let p = |x: Seq<char>| !is_next_flag(x);
    let none = Seq::<Seq<char>>::empty();
    lemma_words_kept(none, a, p);
    lemma_words_kept(a, b, p);
    assert(none + a =~= a);
    reveal(Seq::filter);
    assert(none.filter(p) =~= none);
    assert forall|i: int| 0 <= i < (a + b).len() implies !is_next_flag(#[trigger] (a + b)[i]) by {
        if i < a.len() {
            assert((a + b)[i] == a[i]);
        } else {
            assert((a + b)[i] == b[i - a.len()]);
        }
    }
    let f = a.push("--next"@);
    let g = a.push("-n"@);
    crate::text::lemma_filter_push(a, p, "--next"@);
    crate::text::lemma_filter_push(a, p, "-n"@);
    lemma_words_kept(f, b, p);
    lemma_words_kept(g, b, p);
    assert(is_next_flag((f + b)[a.len() as int]));
    assert(is_next_flag((g + b)[a.len() as int]));
}

proof fn lemma_words_kept(a: Seq<Seq<char>>, b: Seq<Seq<char>>, p: spec_fn(Seq<char>) -> bool)
    requires
        p == (|x: Seq<char>| !is_next_flag(x)),
        forall|i: int| 0 <= i < b.len() ==> #[trigger] b[i] != "--next"@ && b[i] != "-n"@,
    ensures
        (a + b).filter(p) == a.filter(p) + b,
    decreases b.len(),
{
    if b.len() == 0 {
        assert(a + b =~= a);
        assert(a.filter(p) + b =~= a.filter(p));
    } else {
        let f = b.drop_last();
        assert forall|i: int| 0 <= i < f.len() implies #[trigger] f[i] != "--next"@ && f[i] != "-n"@ by {
            assert(f[i] == b[i]);
        }
        lemma_words_kept(a, f, p);
        assert(b[b.len() - 1] != "--next"@);
        assert(a + b =~= (a + f).push(b.last()));
        crate::text::lemma_filter_push(a + f, p, b.last());
        assert(a.filter(p) + b =~= (a.filter(p) + f).push(b.last()));
    }
}

/// What the first word of `playlist` means: the second word is the playlist, which is looked up
/// among the saved ones only to be loaded.
pub proof fn law_playlist_words(rest: Seq<Seq<char>>, names: Seq<Seq<char>>)
    requires
        rest.len() > 1,
    ensures
        ({
            let sub = lower(rest[0]);
            &&& sub == "save"@ ==> playlist_command(rest, names) == ListCmdV::Save(rest[1])
            &&& sub == "load"@ && found_name(names, rest[1]) is Some ==> playlist_command(rest, names) == ListCmdV::Load(
                found_name(names, rest[1])->0,
            )
            &&& sub == "load"@ && found_name(names, rest[1]) is None ==> playlist_command(rest, names) == ListCmdV::Load(rest[1])
            &&& sub == "list"@ || sub == "ls"@ ==> playlist_command(rest, names) is List
            &&& sub == "remove"@ || sub == "rm"@ || sub == "del"@ ==> playlist_command(rest, names) == ListCmdV::Remove(rest[1])
        }),
{
    reveal_strlit("save");
    reveal_strlit("load");
    reveal_strlit("list");
    reveal_strlit("ls");
    reveal_strlit("remove");
    reveal_strlit("rm");
    reveal_strlit("del");
    assert("save"@.len() == 4);
    assert("load"@.len() == 4);
    assert("list"@.len() == 4);
    assert("ls"@.len() == 2);
    assert("remove"@.len() == 6);
    assert("rm"@.len() == 2);
    assert("del"@.len() == 3);
    assert("load"@[0] != "save"@[0]);
    assert("list"@[0] != "save"@[0]);
    assert("list"@[1] != "load"@[1]);
    assert("rm"@[0] != "ls"@[0]);
}

/// What `sleep` means: nothing shows the timer, a word takes it back, anything else is how many
/// minutes; and the timer stops the player after so many.
pub proof fn law_sleep_words(args: Seq<Seq<char>>, mins: Seq<char>, home: Seq<char>)
    ensures
        args.len() == 0 ==> sleep_command(args) is Show,
        args.len() > 0 && (lower(args[0]) == "off"@ || lower(args[0]) == "cancel"@ || lower(args[0]) == "stop"@)
            ==> sleep_command(args) is Off,
        args.len() > 0 && lower(args[0]).len() > 0 && lower(args[0]) != "off"@ && lower(args[0]) != "cancel"@ && lower(args[0])
            != "stop"@ ==> sleep_command(args) == SleepCmdV::After(lower(args[0])),
        sleep_argv(mins, home).contains("--on-active="@ + mins + "min"@),
        sleep_argv(mins, home).last() == "stop"@,
        sleep_argv(mins, home).drop_last().last() == home + "/bin/siren"@,
{
    reveal_strlit("");
    reveal_strlit("off");
    reveal_strlit("cancel");
    reveal_strlit("stop");
    assert("off"@.len() == 3 && "cancel"@.len() == 6 && "stop"@.len() == 4);
    assert(sleep_argv(mins, home)[2] == "--on-active="@ + mins + "min"@);
}

/// The timer is shown by the first line of the listing that mentions it, and is off where none does.
pub proof fn law_timer_is_shown(line: Seq<char>, rest: Seq<Seq<char>>)
    ensures
        has(line, "siren-sleep"@) ==> timer_line(seq![line] + rest) == Some(line),
        !(has(line, "siren-sleep"@)) ==> timer_line(seq![line] + rest) == timer_line(rest),
        timer_line(Seq::empty()) is None,
{
    assert((seq![line] + rest).skip(1) =~= rest);
    assert((seq![line] + rest)[0] == line);
}

/// A format is taken out of the words wherever it stands, with its name in lower case; the other
/// words stay in their order.
pub proof fn law_format_is_taken_out(a: Seq<Seq<char>>, f: Seq<char>, b: Seq<Seq<char>>)
    requires
        forall|i: int| 0 <= i < a.len() ==> no_format(#[trigger] a[i]),
        forall|i: int| 0 <= i < b.len() ==> no_format(#[trigger] b[i]),
    ensures
        format_args(a + b) == (None::<Seq<char>>, a + b),
        format_args(a.push("--format"@).push(f) + b) == (Some(lower(f)), a + b),
        format_args(a.push("--format="@ + f) + b) == (Some(lower(f)), a + b),
{
    let none = Seq::<Seq<char>>::empty();
    let ab = a + b;
    assert forall|i: int| 0 <= i < ab.len() implies no_format(#[trigger] ab[i]) by {
        if i < a.len() {
            assert(ab[i] == a[i]);
        } else {
            assert(ab[i] == b[i - a.len()]);
        }
    }
    lemma_plain_words(ab, 0, ab.len() as int, None, none);
    assert(none + ab.subrange(0, ab.len() as int) =~= ab);
    let x = a.push("--format"@).push(f) + b;
    assert forall|i: int| 0 <= i < a.len() implies no_format(#[trigger] x[i]) by {
        assert(x[i] == a[i]);
    }
    lemma_plain_words(x, 0, a.len() as int, None, none);
    assert(none + x.subrange(0, a.len() as int) =~= a);
    assert(x[a.len() as int] == "--format"@ && x[a.len() as int + 1] == f);
    assert forall|i: int| a.len() + 2 <= i < x.len() implies no_format(#[trigger] x[i]) by {
        assert(x[i] == b[i - a.len() - 2]);
    }
    lemma_plain_words(x, a.len() as int + 2, x.len() as int, Some(lower(f)), a);
    assert(a + x.subrange(a.len() as int + 2, x.len() as int) =~= ab);
    let e = "--format="@ + f;
    let y = a.push(e) + b;
    assert forall|i: int| 0 <= i < a.len() implies no_format(#[trigger] y[i]) by {
        assert(y[i] == a[i]);
    }
    lemma_plain_words(y, 0, a.len() as int, None, none);
    assert(none + y.subrange(0, a.len() as int) =~= a);
    assert(y[a.len() as int] == e);
    reveal_strlit("--format=");
    reveal_strlit("--format");
    assert(e.subrange(0, "--format="@.len() as int) =~= "--format="@);
    assert(e.skip("--format="@.len() as int) =~= f);
    assert(e != "--format"@);
    assert forall|i: int| a.len() + 1 <= i < y.len() implies no_format(#[trigger] y[i]) by {
        assert(y[i] == b[i - a.len() - 1]);
    }
    lemma_plain_words(y, a.len() as int + 1, y.len() as int, Some(lower(f)), a);
    assert(a + y.subrange(a.len() as int + 1, y.len() as int) =~= ab);
}

/// A word that names no format.
pub open spec fn no_format(w: Seq<char>) -> bool {
    w != "--format"@ && !crate::text::starts(w, "--format="@)
}

proof fn lemma_plain_words(args: Seq<Seq<char>>, i: int, end: int, format: Option<Seq<char>>, rest: Seq<Seq<char>>)
    requires
        0 <= i <= end <= args.len(),
        forall|j: int| i <= j < end ==> no_format(#[trigger] args[j]),
    ensures
        split_format(args, i, format, rest) == split_format(args, end, format, rest + args.subrange(i, end)),
    decreases end - i,
{
    if i < end {
        assert(no_format(args[i]));
        lemma_plain_words(args, i + 1, end, format, rest.push(args[i]));
        assert(rest.push(args[i]) + args.subrange(i + 1, end) =~= rest + args.subrange(i, end));
    } else {
        assert(rest + args.subrange(i, end) =~= rest);
    }
}

/// What the words of `trove` mean: a number in front of them is how many results a page has.
pub proof fn law_trove_words(args: Seq<Seq<char>>, n: int)
    requires
        args.len() > 0,
    ensures
        (lower(args[0]) == "get"@ || lower(args[0]) == "g"@) && args.len() > 1 ==> trove_words(args) == TroveCmdV::Get(args[1]),
        0 <= n <= u32::MAX && args[0] == dec(n) ==> trove_words(args) == TroveCmdV::Search(n, args.skip(1)),
        int_in(args[0], 0, u32::MAX as int) is None && lower(args[0]) != "get"@ && lower(args[0]) != "g"@ && lower(args[0])
            != "about"@ && lower(args[0]) != "help"@ && lower(args[0]) != "-h"@ && lower(args[0]) != "--help"@ ==> trove_words(
            args,
        ) == TroveCmdV::Search(10, args),
{
    if 0 <= n <= u32::MAX && args[0] == dec(n) {
        crate::nums::law_dec_reads_back(n, 0, u32::MAX as int);
        crate::nums::lemma_dec_nat(n as nat);
        let t = dec(n);
        assert forall|i: int| 0 <= i < t.len() implies crate::text::is_ascii(#[trigger] t[i]) by {
            assert(crate::nums::is_digit(t[i]));
        }
        assert(lower(t) =~= t) by {
            assert forall|i: int| 0 <= i < t.len() implies lower(t)[i] == t[i] by {
                assert(crate::nums::is_digit(t[i]));
            }
        }
        assert(crate::nums::is_digit(t[0]));
        reveal_strlit("get");
        reveal_strlit("g");
        reveal_strlit("about");
        reveal_strlit("help");
        reveal_strlit("-h");
        reveal_strlit("--help");
        assert("get"@[0] == 'g' && "g"@[0] == 'g' && "about"@[0] == 'a' && "help"@[0] == 'h' && "-h"@[0] == '-' && "--help"@[0]
            == '-');
    }
}

/// What is kept of what plays: here the label, the state and the volume of the player of this
/// machine; on a speaker its own.
pub proof fn law_snapshot_says_what_plays(c: ConfigV, s: SpeakerV, state: Seq<char>, vol: i32, here: LocalNow, ts: Seq<char>)
    ensures
        c.audio_output != "heos"@ ==> {
            let v = snapshot_json(c, None, here, ts);
            &&& v.str_at("label"@) == Some(here.label@)
            &&& v.str_at("output"@) == Some("local"@)
            &&& here.volume matches Some(n) ==> v.i64_at("vol"@) == Some(n)
            &&& !here.alive ==> v.str_at("state"@) == Some("idle"@)
            &&& here.alive && here.paused ==> v.str_at("state"@) == Some("pause"@)
            &&& here.alive && !here.paused && here.label@.len() > 0 ==> v.str_at("state"@) == Some("play"@)
        },
        c.audio_output == "heos"@ ==> {
            let v = snapshot_json(c, Some((s, Some(state), Some(vol))), here, ts);
            &&& v.str_at("label"@) == Some(s.name + " — "@ + state)
            &&& v.str_at("output"@) == Some("heos"@)
            &&& v.str_at("state"@) == Some(state)
            &&& v.i64_at("vol"@) == Some(vol as i64)
        },
{
    lemma_now_members(here.label@, "local"@, Some(local_state(here)), wide(here.volume), ts);
    lemma_now_members(s.name + " — "@ + state, "heos"@, Some(state), Some(vol as int), ts);
}

proof fn lemma_now_members(label: Seq<char>, output: Seq<char>, state: Option<Seq<char>>, vol: Option<int>, ts: Seq<char>)
    ensures
        ({
            let v = now_json(label, output, state, vol, ts);
            &&& v.get("label"@) == Some(JsonV::Str(label))
            &&& v.get("output"@) == Some(JsonV::Str(output))
            &&& v.get("state"@) == Some(opt_text(state))
            &&& v.get("vol"@) == Some(opt_number(vol))
        }),
{
    reveal_strlit("label");
    reveal_strlit("output");
    reveal_strlit("state");
    reveal_strlit("ts");
    reveal_strlit("vol");
    assert("label"@.len() == 5);
    assert("output"@.len() == 6);
    assert("state"@.len() == 5);
    assert("ts"@.len() == 2);
    assert("vol"@.len() == 3);
    assert("state"@[0] != "label"@[0]);
    reveal_with_fuel(crate::json::member, 6);
    let o = now_json(label, output, state, vol, ts)->Obj_0;
    assert(o[0].0 == "label"@ && o[1].0 == "output"@ && o[2].0 == "state"@ && o[3].0 == "ts"@ && o[4].0 == "vol"@);
}

/// The line of a timer says when it is due: in its second word where it has no date, else in its
/// fifth, as time that is left where the sixth says so.
pub proof fn law_time_left_is_read(line: Seq<char>)
    ensures
        ({
            let w = words(line);
            &&& w.len() >= 2 && w[0] == "n/a"@ ==> time_left(line) == w[1]
            &&& w.len() >= 6 && w[0] != "n/a"@ && w[5] == "left"@ ==> time_left(line) == w[4] + " left"@
            &&& w.len() >= 6 && w[0] != "n/a"@ && w[5] != "left"@ ==> time_left(line) == w[4]
            &&& w.len() == 5 && w[0] != "n/a"@ ==> time_left(line) == w[4]
            &&& w.len() < 5 && (w.len() == 0 || w[0] != "n/a"@) ==> time_left(line) == "?"@
        }),
{
}

/// A sleep that is set is told by the first line of the listing that names its timer; without such
/// a line it is off.
pub proof fn law_sleep_is_told(listing: Seq<char>, line: Seq<char>, rest: Seq<Seq<char>>)
    ensures
        lines(listing) == seq![line] + rest && has(line, "siren-sleep"@) ==> sleep_text(listing) == "sleep: stops in "@
            + time_left(line),
        lines(listing) == seq![line] && !(has(line, "siren-sleep"@)) ==> sleep_text(listing) == "sleep: off"@,
        lines(listing).len() == 0 ==> sleep_text(listing) == "sleep: off"@,
{
    law_timer_is_shown(line, rest);
    law_timer_is_shown(line, Seq::empty());
    assert(seq![line] + Seq::<Seq<char>>::empty() =~= seq![line]);
}

/// What plays is shown from what was stored: its label, or that nothing plays. What is given on has
/// the age of the store as its own, and every other member as it was stored.
pub proof fn law_stored_label_is_shown(raw: Seq<char>, o: Seq<(Seq<char>, JsonV)>, m: (Seq<char>, JsonV), age: Seq<char>)
    ensures
        parsed_or_null(raw).str_at("label"@) matches Some(l) ==> (l.len() > 0 ==> cached_text(raw) == l),
        parsed_or_null(raw).str_at("label"@) is None ==> cached_text(raw) == "Not playing"@,
        with_age(JsonV::Null, age) == JsonV::Obj(seq![("age"@, real_v(age))]),
        with_age(JsonV::Obj(o), age) matches JsonV::Obj(w) && w.len() > 0 && w.last() == ("age"@, real_v(age)),
        m.0 != "age"@ ==> (with_age(JsonV::Obj(o.push(m)), age) matches JsonV::Obj(w) && w.drop_last() == (with_age(
            JsonV::Obj(o),
            age,
        )->Obj_0).drop_last().push(m)),
        m.0 == "age"@ ==> with_age(JsonV::Obj(o.push(m)), age) == with_age(JsonV::Obj(o), age),
{
    reveal_strlit("");
    let p = |m: (Seq<char>, JsonV)| m.0 != "age"@;
    crate::text::lemma_filter_push(o, p, m);
    let none = Seq::<(Seq<char>, JsonV)>::empty();
    assert(none.filter(p) =~= none) by {
        reveal(Seq::filter);
    }
    assert(none.push(("age"@, real_v(age))) =~= seq![("age"@, real_v(age))]);
    let f = o.filter(p);
    assert(f.push(("age"@, real_v(age))).drop_last() =~= f);
    assert(f.push(m).push(("age"@, real_v(age))).drop_last() =~= f.push(m));
}

/// The playlists are listed by their names, one on a line, in their order; without any that is said.
pub proof fn law_playlists_are_listed(names: Seq<Seq<char>>, i: int)
    ensures
        names.len() == 0 ==> name_lines(names) == seq!["(no saved playlists)"@],
        names.len() > 0 ==> name_lines(names).len() == names.len(),
        0 <= i < names.len() ==> name_lines(names)[i] == "  "@ + names[i],
{
}

/// The status without mpv is that it is idle, with the number of tracks in the library; with mpv it
/// is what mpv plays. On a speaker it is the speaker's state, its name and address, and its volume,
/// once these are known.
pub proof fn law_status_is_told(c: ConfigV, s: SessionV, m: MpvState, tracks: int, k: Known)
    ensures
        c.audio_output != "heos"@ ==> status_ask(c, s, None, tracks, k) == lists(
            seq!["status: idle (no mpv)"@, "library tracks: "@ + dec(tracks)],
            0,
        ),
        c.audio_output != "heos"@ ==> status_ask(c, s, Some(m), tracks, k) == lists(status_text(c, s, m), 0),
        c.audio_output == "heos"@ ==> match (speaker_known(k), status_known(k)) {
            (None, _) => status_ask(c, s, Some(m), tracks, k) == AskV::Speaker(speaker_hint(c, None)),
            (Some(None), _) => status_ask(c, s, Some(m), tracks, k) == fails("no speaker found"@, 1),
            (Some(Some(_)), None) => status_ask(c, s, Some(m), tracks, k) == AskV::Status,
            (Some(Some(sp)), Some((state, vol))) => {
                &&& state matches Some(x) ==> status_ask(c, s, Some(m), tracks, k) matches AskV::End(r) && r.out[0] == "status: "@
                    + x
                &&& status_ask(c, s, Some(m), tracks, k) matches AskV::End(r) && r.out.len() == 3 && r.out[1] == "speaker: "@
                    + sp.name + " ("@ + sp.ip + ")"@ && r.code == 0
                &&& vol matches Some(v) ==> status_ask(c, s, Some(m), tracks, k) matches AskV::End(r) && r.out[2] == "vol:    "@
                    + (dec(v as int) + "%"@)
            },
        },
{
}

/// Without any track in the library none can be played by chance, which is said.
pub proof fn law_empty_library_is_said(c: ConfigV, chance: int, k: Known)
    ensures
        random_ask(c, Seq::empty(), chance, k) == says("No tracks found in library."@, 1),
{
}

/// To go on, mpv is told not to pause; where it then plays nothing, it is sent to the first track,
/// and what it plays in the end is said.
pub proof fn law_playback_goes_on(k: Known)
    ensures
        k.sent == 0 ==> resume_ask(k) == AskV::Mpv(
            JsonV::Arr(seq![JsonV::Str("set_property"@), JsonV::Str("pause"@), JsonV::Bool(false)]),
        ),
        k.sent == 1 && k.label is None ==> resume_ask(k) == AskV::Label(0),
        k.sent == 1 && k.label is Some && k.label->0@.len() == 0 ==> resume_ask(k) == AskV::Mpv(
            JsonV::Arr(seq![JsonV::Str("playlist-play-index"@), int_v(0)]),
        ),
        k.sent == 1 && k.label is Some && k.label->0@.len() > 0 && k.label_after is Some && k.label_after->0@.len() > 0
            ==> resume_ask(k) == says("Playing: "@ + k.label_after->0@, 0),
        k.sent == 2 && k.label is Some && k.label_after is Some && k.label_after->0@.len() == 0 ==> resume_ask(k) == says(
            "Playback resumed"@,
            0,
        ),
{
}

} // verus!
