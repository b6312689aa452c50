//! The commands: what each asks for, and what it reports.
//!
//! A command is a function of its arguments and of what is known so far. It returns the
//! next thing that it has to know or to have done, or its report. Whoever runs it does
//! that, adds it to what is known, and calls it again.

use vstd::prelude::*;
use crate::config::{config_get, config_keys, config_set, ConfigV, SirenConfig};
use crate::heos::{self, clamped, entries_view, player_uri, EntryV, QueueEntry};
use crate::json::{Json, JsonV};
use crate::nums::{dec, dec_i64, dec_u64, dec_usize, int_in, pad, pad_left, parse_i32, parse_usize};
use crate::text::{
    after_prefix, blank, cat2, cat3, cat4, cat5, cat6, chars_of, is_blank, lower, lowered, opt_as_str, opt_str, opt_view,
    same, strip_prefix, text_of, trim, trim_end_of, trimmed, views,
};

verus! {

// ---- asking and reporting ----

/// A speaker that was found.
pub struct Speaker {
    pub ip: String,
    pub pid: i64,
    pub name: String,
}

/// The model of a [`Speaker`].
#[verifier::ext_equal]
pub struct SpeakerV {
    pub ip: Seq<char>,
    pub pid: i64,
    pub name: Seq<char>,
}

impl View for Speaker {
    type V = SpeakerV;

    open spec fn view(&self) -> SpeakerV {
        SpeakerV { ip: self.ip@, pid: self.pid, name: self.name@ }
    }
}

/// How a command ends: the lines it prints, its errors, its exit code, and a file that is
/// noted as put on.
pub struct Report {
    pub out: Vec<String>,
    pub err: Vec<String>,
    pub code: i32,
    pub note: Option<String>,
}

/// The model of a [`Report`].
#[verifier::ext_equal]
pub struct ReportV {
    pub out: Seq<Seq<char>>,
    pub err: Seq<Seq<char>>,
    pub code: i32,
    pub note: Option<Seq<char>>,
}

impl View for Report {
    type V = ReportV;

    open spec fn view(&self) -> ReportV {
        ReportV { out: views(self.out@), err: views(self.err@), code: self.code, note: opt_view(self.note) }
    }
}

/// A transport key.
#[derive(Clone, Copy)]
pub enum Verb {
    Pause,
    Stop,
    Next,
    Prev,
}

/// What a command asks for next.
pub enum Ask {
    /// Find the speaker, by a hint if there is one.
    Speaker(Option<String>),
    /// Ask the speaker for its state and volume.
    Status,
    /// Send the speaker this request; did it succeed?
    Request(String),
    /// List the speaker's queue.
    Entries,
    /// Cast this file, queued in this way.
    Cast(String, i64),
    /// Print the line, then cast these files in order.
    CastMany(String, Vec<String>),
    /// Store this configuration.
    Save(SirenConfig),
    /// Which file is playing?
    NowPath,
    /// Which file stands first in the library?
    LibraryTop,
    /// How many files has mpv's playlist? 0 where it does not run.
    PlaylistCount,
    /// Send mpv this command.
    Mpv(Json),
    /// What is playing, as it is shown, after so many milliseconds?
    Label(u64),
    /// Which playlists are saved?
    Names,
    /// Play this playlist.
    PlayList(String),
    /// Which files do the arguments mean?
    Resolve,
    /// Put on these files, shuffled or in order.
    Start(Vec<String>, bool),
    /// What state is the speaker in?
    State,
    /// Do this on the player of this machine.
    Local(Verb),
    /// It is over.
    End(Report),
}

/// The model of an [`Ask`].
#[verifier::ext_equal]
pub enum AskV {
    Speaker(Option<Seq<char>>),
    Status,
    Request(Seq<char>),
    Entries,
    Cast(Seq<char>, i64),
    CastMany(Seq<char>, Seq<Seq<char>>),
    Save(ConfigV),
    NowPath,
    LibraryTop,
    PlaylistCount,
    Mpv(JsonV),
    Label(u64),
    Names,
    PlayList(Seq<char>),
    Resolve,
    Start(Seq<Seq<char>>, bool),
    State,
    Local(Verb),
    End(ReportV),
}

impl View for Ask {
    type V = AskV;

    open spec fn view(&self) -> AskV {
        match self {
            Ask::Speaker(h) => AskV::Speaker(opt_view(*h)),
            Ask::Status => AskV::Status,
            Ask::Request(u) => AskV::Request(u@),
            Ask::Entries => AskV::Entries,
            Ask::Cast(p, a) => AskV::Cast(p@, *a),
            Ask::CastMany(l, p) => AskV::CastMany(l@, views(p@)),
            Ask::Save(c) => AskV::Save(c@),
            Ask::NowPath => AskV::NowPath,
            Ask::LibraryTop => AskV::LibraryTop,
            Ask::PlaylistCount => AskV::PlaylistCount,
            Ask::Mpv(j) => AskV::Mpv(j@),
            Ask::Label(ms) => AskV::Label(*ms),
            Ask::Names => AskV::Names,
            Ask::PlayList(n) => AskV::PlayList(n@),
            Ask::Resolve => AskV::Resolve,
            Ask::Start(p, b) => AskV::Start(views(p@), *b),
            Ask::State => AskV::State,
            Ask::Local(v) => AskV::Local(*v),
            Ask::End(r) => AskV::End(r@),
        }
    }
}

/// What is known so far. What was not asked for yet is `None`.
pub struct Known {
    pub speaker: Option<Option<Speaker>>,
    pub status: Option<(Option<String>, Option<i32>)>,
    pub answer: Option<bool>,
    pub entries: Option<Vec<QueueEntry>>,
    /// What went wrong with the cast, if anything did.
    pub cast: Option<Option<String>>,
    /// How many casts went well, of how many.
    pub casts: Option<(usize, usize)>,
    /// What went wrong with storing, if anything did.
    pub saved: Option<Option<String>>,
    pub now: Option<String>,
    pub top: Option<Option<String>>,
    pub count: Option<i64>,
    /// How many commands mpv was sent.
    pub sent: usize,
    pub label: Option<String>,
    pub label_after: Option<String>,
    pub names: Option<Vec<String>>,
    pub hits: Option<Vec<String>>,
    pub state: Option<Option<String>>,
    /// Whether the player of this machine was told.
    pub done: bool,
}

impl Known {
    /// Nothing is known.
    pub fn nothing() -> (k: Known)
        ensures
            k.speaker is None,
            k.status is None,
            k.answer is None,
            k.entries is None,
            k.cast is None,
            k.casts is None,
            k.saved is None,
            k.now is None,
            k.top is None,
            k.count is None,
            k.sent == 0,
            k.label is None,
            k.label_after is None,
            k.names is None,
            k.hits is None,
            k.state is None,
            !k.done,
    {
        Known {
            speaker: None,
            status: None,
            answer: None,
            entries: None,
            cast: None,
            casts: None,
            saved: None,
            now: None,
            top: None,
            count: None,
            sent: 0,
            label: None,
            label_after: None,
            names: None,
            hits: None,
            state: None,
            done: false,
        }
    }
}

/// A report of one printed line.
pub open spec fn says(line: Seq<char>, code: i32) -> AskV {
    AskV::End(ReportV { out: seq![line], err: Seq::empty(), code, note: None })
}

/// A report of one error.
pub open spec fn fails(line: Seq<char>, code: i32) -> AskV {
    AskV::End(ReportV { out: Seq::empty(), err: seq![line], code, note: None })
}

/// A report of printed lines.
pub open spec fn lists(out: Seq<Seq<char>>, code: i32) -> AskV {
    AskV::End(ReportV { out, err: Seq::empty(), code, note: None })
}

/// A report of one printed line, with a file that is noted as put on.
pub open spec fn says_noting(line: Seq<char>, code: i32, note: Option<Seq<char>>) -> AskV {
    AskV::End(ReportV { out: seq![line], err: Seq::empty(), code, note })
}

pub(crate) fn one(line: String) -> (r: Vec<String>)
    ensures
        views(r@) == seq![line@],
{
    let mut r: Vec<String> = Vec::new();
    r.push(line);
    assert(views(r@) == seq![line@]);
    r
}

pub(crate) fn none() -> (r: Vec<String>)
    ensures
        views(r@) == Seq::<Seq<char>>::empty(),
{
    let r: Vec<String> = Vec::new();
    assert(views(r@) == Seq::<Seq<char>>::empty());
    r
}

pub(crate) fn say(line: String, code: i32) -> (r: Ask)
    ensures
        r@ == says(line@, code),
{
    Ask::End(Report { out: one(line), err: none(), code, note: None })
}

pub(crate) fn fail(line: String, code: i32) -> (r: Ask)
    ensures
        r@ == fails(line@, code),
{
    Ask::End(Report { out: none(), err: one(line), code, note: None })
}

pub(crate) fn list(out: Vec<String>, code: i32) -> (r: Ask)
    ensures
        r@ == lists(views(out@), code),
{
    Ask::End(Report { out, err: none(), code, note: None })
}

pub(crate) fn say_noting(line: String, code: i32, note: Option<String>) -> (r: Ask)
    ensures
        r@ == says_noting(line@, code, opt_view(note)),
{
    Ask::End(Report { out: one(line), err: none(), code, note })
}

/// A volume as it is shown.
pub open spec fn volume_text(v: Option<i32>) -> Seq<char> {
    match v {
        Some(n) => dec(n as int) + "%"@,
        None => "?"@,
    }
}

pub(crate) fn show_volume(v: Option<i32>) -> (s: String)
    ensures
        s@ == volume_text(v),
{
    match v {
        Some(n) => cat2(dec_i64(n as i64).as_str(), "%"),
        None => "?".to_owned(),
    }
}

/// A state as it is shown.
pub open spec fn state_text(s: Option<Seq<char>>) -> Seq<char> {
    match s {
        Some(t) => t,
        None => "?"@,
    }
}

pub(crate) fn show_state(s: &Option<String>) -> (r: String)
    ensures
        r@ == state_text(opt_view(*s)),
{
    match s {
        Some(t) => t.clone(),
        None => "?".to_owned(),
    }
}

/// The hint by which the speaker is found: the given one, else the configured one.
pub open spec fn speaker_hint(c: ConfigV, hint: Option<Seq<char>>) -> Option<Seq<char>> {
    match hint {
        Some(h) => Some(h),
        None => if blank(c.audio_speaker) {
            None
        } else {
            Some(c.audio_speaker)
        },
    }
}

/// The hint by which the speaker is found.
pub fn heos_target(cfg: &SirenConfig, hint: Option<&str>) -> (r: Option<String>)
    ensures
        opt_view(r) == speaker_hint(cfg@, opt_str(hint)),
{
    match hint {
        Some(h) => Some(h.to_owned()),
        None => {
            if is_blank(cfg.audio_speaker.as_str()) {
                None
            } else {
                Some(cfg.audio_speaker.clone())
            }
        },
    }
}

// ---- config ----

/// The lines that show the whole configuration.
pub open spec fn config_lines(c: ConfigV) -> Seq<Seq<char>> {
    Seq::new(
        config_keys().len(),
        |i: int|
            config_keys()[i] + " = "@ + (match config_get(c, config_keys()[i]) {
                Some(v) => v,
                None => ""@,
            }),
    )
}

/// What `config` asks for.
pub open spec fn config_ask(
    c: ConfigV,
    action: Option<Seq<char>>,
    key: Option<Seq<char>>,
    value: Option<Seq<char>>,
    saved: Option<Option<Seq<char>>>,
) -> AskV {
    match action {
        None => lists(config_lines(c), 0),
        Some(a) => if a == "get"@ {
            match key {
                Some(k) => match config_get(c, k) {
                    Some(v) => says(k + " = "@ + v, 0),
                    None => fails("unknown key: "@ + k, 1),
                },
                None => fails("usage: siren config get <key>"@, 1),
            }
        } else if a == "set"@ {
            match (key, value) {
                (Some(k), Some(v)) => match config_set(c, k, v).1 {
                    Ok(shown) => match saved {
                        None => AskV::Save(config_set(c, k, v).0),
                        Some(None) => says(k + " = "@ + shown, 0),
                        Some(Some(e)) => fails("save failed: "@ + e, 1),
                    },
                    Err(msg) => fails(k + ": "@ + msg, 1),
                },
                _ => fails("usage: siren config set <key> <value>"@, 1),
            }
        } else {
            fails("usage: siren config [get|set] <key> [value] (got "@ + a + ")"@, 1)
        },
    }
}

/// What went wrong, as far as it was asked for.
pub open spec fn trouble(t: Option<Option<String>>) -> Option<Option<Seq<char>>> {
    match t {
        Some(e) => Some(opt_view(e)),
        None => None,
    }
}

fn show_config(cfg: &SirenConfig) -> (r: Vec<String>)
    ensures
        views(r@) == config_lines(cfg@),
{
    let keys = SirenConfig::keys();
    let mut r: Vec<String> = Vec::new();
    for i in 0..keys.len()
        invariant
            views(keys@) == config_keys(),
            r.len() == i,
            forall|j: int| 0 <= j < i ==> (#[trigger] r@[j])@ == config_lines(cfg@)[j],
    {
        assert(views(keys@)[i as int] == keys@[i as int]@);
        let v = match cfg.get(keys[i].as_str()) {
            Some(v) => v,
            None => "".to_owned(),
        };
        r.push(cat3(keys[i].as_str(), " = ", v.as_str()));
    }
    assert(views(keys@).len() == keys.len());
    assert(views(r@) == config_lines(cfg@));
    r
}

/// `config`: shows everything, or gets or sets one key.
pub fn cmd_config(
    cfg: &SirenConfig,
    action: Option<&str>,
    key: Option<&str>,
    value: Option<&str>,
    k: &Known,
) -> (r: Ask)
    ensures
        r@ == config_ask(cfg@, opt_str(action), opt_str(key), opt_str(value), trouble(k.saved)),
{
    let a = match action {
        None => {
            return list(show_config(cfg), 0);
        },
        Some(a) => a,
    };
    if same(a, "get") {
        match key {
            Some(name) => match cfg.get(name) {
                Some(v) => say(cat3(name, " = ", v.as_str()), 0),
                None => fail(cat2("unknown key: ", name), 1),
            },
            None => fail("usage: siren config get <key>".to_owned(), 1),
        }
    } else if same(a, "set") {
        match (key, value) {
            (Some(name), Some(v)) => {
                let mut next = cfg.copy();
                match next.set(name, v) {
                    Ok(shown) => match &k.saved {
                        None => Ask::Save(next),
                        Some(None) => say(cat3(name, " = ", shown.as_str()), 0),
                        Some(Some(e)) => fail(cat2("save failed: ", e.as_str()), 1),
                    },
                    Err(msg) => fail(cat3(name, ": ", msg.as_str()), 1),
                }
            },
            _ => fail("usage: siren config set <key> <value>".to_owned(), 1),
        }
    } else {
        fail(cat3("usage: siren config [get|set] <key> [value] (got ", a, ")"), 1)
    }
}

// ---- audio ----

/// What `audio` is told to do.
pub enum AudioCmd {
    Status,
    Output(Option<String>),
    Speaker(Option<String>),
    Vol(Option<String>),
    Test,
    Queue(Vec<String>),
}

/// The model of an [`AudioCmd`].
#[verifier::ext_equal]
pub enum AudioCmdV {
    Status,
    Output(Option<Seq<char>>),
    Speaker(Option<Seq<char>>),
    Vol(Option<Seq<char>>),
    Test,
    Queue(Seq<Seq<char>>),
}

impl View for AudioCmd {
    type V = AudioCmdV;

    open spec fn view(&self) -> AudioCmdV {
        match self {
            AudioCmd::Status => AudioCmdV::Status,
            AudioCmd::Output(v) => AudioCmdV::Output(opt_view(*v)),
            AudioCmd::Speaker(v) => AudioCmdV::Speaker(opt_view(*v)),
            AudioCmd::Vol(v) => AudioCmdV::Vol(opt_view(*v)),
            AudioCmd::Test => AudioCmdV::Test,
            AudioCmd::Queue(a) => AudioCmdV::Queue(views(a@)),
        }
    }
}

/// The lines that show the audio routing; `live` is what the speaker says of itself.
pub open spec fn audio_lines(
    c: ConfigV,
    live: Option<(SpeakerV, Option<Seq<char>>, Option<i32>)>,
) -> Seq<Seq<char>> {
    seq![
        "output:  "@ + c.audio_output,
        "speaker: "@ + c.audio_speaker,
        match live {
            Some((sp, state, vol)) => "live:    "@ + sp.name + " ("@ + sp.ip + ") state="@ + state_text(state) + " vol="@
                + volume_text(vol),
            None => "live:    no speaker found"@,
        },
    ]
}

/// A volume as a user writes it, with or without percent signs behind it.
pub open spec fn level_of(v: Seq<char>) -> Option<int> {
    int_in(trim_end_of(trim(v), |c: char| c == '%'), i32::MIN as int, i32::MAX as int)
}

/// What setting one key of the audio routing asks for.
pub open spec fn audio_set_ask(
    c: ConfigV,
    key: Seq<char>,
    name: Seq<char>,
    current: Seq<char>,
    value: Option<Seq<char>>,
    saved: Option<Option<Seq<char>>>,
) -> AskV {
    match value {
        None => says(current, 0),
        Some(v) => match config_set(c, key, v).1 {
            Ok(shown) => match saved {
                None => AskV::Save(config_set(c, key, v).0),
                Some(None) => says(name + " = "@ + shown, 0),
                Some(Some(_)) => fails("save failed"@, 1),
            },
            Err(msg) => fails(key + ": "@ + msg, 1),
        },
    }
}

/// The file that a test casts: what is playing, else what is queued first, else what stands
/// first in the library.
pub open spec fn test_pick(
    now: Seq<char>,
    queued: Option<Seq<char>>,
    top: Option<Option<Seq<char>>>,
) -> Option<Option<Seq<char>>> {
    if now.len() > 0 {
        Some(Some(now))
    } else {
        match queued {
            Some(q) => Some(Some(q)),
            None => top,
        }
    }
}

/// The speaker, as far as it was asked for.
pub open spec fn speaker_known(k: Known) -> Option<Option<SpeakerV>> {
    match k.speaker {
        Some(Some(s)) => Some(Some(s@)),
        Some(None) => Some(None),
        None => None,
    }
}

/// What the speaker says of itself, as far as it was asked for.
pub open spec fn status_known(k: Known) -> Option<(Option<Seq<char>>, Option<i32>)> {
    match k.status {
        Some((s, v)) => Some((opt_view(s), v)),
        None => None,
    }
}

/// What `audio` asks for. `queued` is the file that is queued first.
pub open spec fn audio_ask(c: ConfigV, cmd: AudioCmdV, queued: Option<Seq<char>>, k: Known) -> AskV {
    let sp = speaker_known(k);
    let saved = trouble(k.saved);
    match cmd {
        AudioCmdV::Status => match sp {
            None => AskV::Speaker(speaker_hint(c, None)),
            Some(None) => lists(audio_lines(c, None), 0),
            Some(Some(s)) => match status_known(k) {
                None => AskV::Status,
                Some((state, vol)) => lists(audio_lines(c, Some((s, state, vol))), 0),
            },
        },
        AudioCmdV::Output(v) => audio_set_ask(c, "audio_output"@, "output"@, c.audio_output, v, saved),
        AudioCmdV::Speaker(v) => audio_set_ask(c, "audio_speaker"@, "speaker"@, c.audio_speaker, v, saved),
        AudioCmdV::Vol(v) => match sp {
            None => AskV::Speaker(speaker_hint(c, None)),
            Some(None) => fails("no speaker found"@, 1),
            Some(Some(s)) => match v {
                None => match status_known(k) {
                    None => AskV::Status,
                    Some((_, vol)) => says(s.name + " volume: "@ + volume_text(vol), 0),
                },
                Some(text) => match level_of(text) {
                    None => fails("volume must be 0-100"@, 1),
                    Some(n) => match k.answer {
                        None => AskV::Request(
                            player_uri("set_volume"@, s.pid) + "&level="@ + dec(clamped(n, 0, 100)),
                        ),
                        Some(true) => says(s.name + " volume → "@ + dec(clamped(n, 0, 100)) + "%"@, 0),
                        Some(false) => fails("volume failed"@, 1),
                    },
                },
            },
        },
        AudioCmdV::Test => match k.now {
            None => AskV::NowPath,
            Some(now) => match test_pick(now@, queued, trouble(k.top)) {
                None => AskV::LibraryTop,
                Some(None) => fails("nothing to cast"@, 1),
                Some(Some(p)) => match sp {
                    None => AskV::Speaker(speaker_hint(c, None)),
                    Some(None) => fails("no speaker found"@, 1),
                    Some(Some(s)) => match trouble(k.cast) {
                        None => AskV::Cast(p, 1),
                        Some(None) => says_noting("cast "@ + p + " → "@ + s.name, 0, Some(p)),
                        Some(Some(e)) => fails("cast failed: "@ + e, 1),
                    },
                },
            },
        },
        AudioCmdV::Queue(args) => speaker_queue_ask(c, args, k),
    }
}

fn read_level(v: &str) -> (r: Option<i32>)
    ensures
        match r {
            Some(n) => level_of(v@) == Some(n as int),
            None => level_of(v@) is None,
        },
{
    let mut s = chars_of(trimmed(v).as_str());
    let ghost start = s@;
    let ghost cut = |c: char| c == '%';
    while s.len() > 0 && s[s.len() - 1] == '%'
        invariant
            cut == (|c: char| c == '%'),
            trim_end_of(s@, cut) == trim_end_of(start, cut),
        ensures
            s@.len() == 0 || !cut(s@.last()),
        decreases s.len(),
    {
        let n: usize = s.len() - 1;
        s.truncate(n);
    }
    parse_i32(text_of(&s).as_str())
}

fn show_audio(cfg: &SirenConfig, live: Option<(&Speaker, &Option<String>, Option<i32>)>) -> (r: Vec<String>)
    ensures
        views(r@) == audio_lines(
            cfg@,
            match live {
                Some((s, state, vol)) => Some((s@, opt_view(*state), vol)),
                None => None,
            },
        ),
{
    let mut r: Vec<String> = Vec::new();
    r.push(cat2("output:  ", cfg.audio_output.as_str()));
    r.push(cat2("speaker: ", cfg.audio_speaker.as_str()));
    match live {
        Some((s, state, vol)) => {
            let head = cat5("live:    ", s.name.as_str(), " (", s.ip.as_str(), ") state=");
            r.push(cat4(head.as_str(), show_state(state).as_str(), " vol=", show_volume(vol).as_str()));
        },
        None => {
            r.push("live:    no speaker found".to_owned());
        },
    }
    assert(views(r@) == audio_lines(
        cfg@,
        match live {
            Some((s, state, vol)) => Some((s@, opt_view(*state), vol)),
            None => None,
        },
    ));
    r
}

fn set_audio_key(cfg: &SirenConfig, key: &str, name: &str, current: &str, value: Option<&str>, k: &Known) -> (r: Ask)
    ensures
        r@ == audio_set_ask(cfg@, key@, name@, current@, opt_str(value), trouble(k.saved)),
{
    match value {
        None => say(current.to_owned(), 0),
        Some(v) => {
            let mut next = cfg.copy();
            match next.set(key, v) {
                Ok(shown) => match &k.saved {
                    None => Ask::Save(next),
                    Some(None) => say(cat3(name, " = ", shown.as_str()), 0),
                    Some(Some(_)) => fail("save failed".to_owned(), 1),
                },
                Err(msg) => fail(cat3(key, ": ", msg.as_str()), 1),
            }
        },
    }
}

fn audio_volume(cfg: &SirenConfig, v: Option<&str>, k: &Known) -> (r: Ask)
    ensures
        r@ == audio_ask(cfg@, AudioCmdV::Vol(opt_str(v)), None, *k),
{
    let s = match &k.speaker {
        None => {
            return Ask::Speaker(heos_target(cfg, None));
        },
        Some(None) => {
            return fail("no speaker found".to_owned(), 1);
        },
        Some(Some(s)) => s,
    };
    match v {
        None => match &k.status {
            None => Ask::Status,
            Some(st) => say(cat3(s.name.as_str(), " volume: ", show_volume(st.1).as_str()), 0),
        },
        Some(text) => match read_level(text) {
            None => fail("volume must be 0-100".to_owned(), 1),
            Some(n) => {
                let shown: i32 = if n < 0 {
                    0
                } else if n > 100 {
                    100
                } else {
                    n
                };
                match k.answer {
                    None => Ask::Request(heos::set_volume(s.pid, n)),
                    Some(true) => say(
                        cat4(s.name.as_str(), " volume → ", dec_i64(shown as i64).as_str(), "%"),
                        0,
                    ),
                    Some(false) => fail("volume failed".to_owned(), 1),
                }
            },
        },
    }
}

fn audio_test(cfg: &SirenConfig, queued: Option<&str>, k: &Known) -> (r: Ask)
    ensures
        r@ == audio_ask(cfg@, AudioCmdV::Test, opt_str(queued), *k),
{
    let now = match &k.now {
        None => {
            return Ask::NowPath;
        },
        Some(p) => p,
    };
    let pick = if !now.as_str().is_empty() {
        now.clone()
    } else {
        match queued {
            Some(q) => q.to_owned(),
            None => match &k.top {
                None => {
                    return Ask::LibraryTop;
                },
                Some(None) => {
                    return fail("nothing to cast".to_owned(), 1);
                },
                Some(Some(t)) => t.clone(),
            },
        }
    };
    match &k.speaker {
        None => Ask::Speaker(heos_target(cfg, None)),
        Some(None) => fail("no speaker found".to_owned(), 1),
        Some(Some(s)) => match &k.cast {
            None => Ask::Cast(pick, 1),
            Some(None) => say_noting(cat4("cast ", pick.as_str(), " → ", s.name.as_str()), 0, Some(pick)),
            Some(Some(e)) => fail(cat2("cast failed: ", e.as_str()), 1),
        },
    }
}

/// `audio`: shows or sets where the audio goes. `queued` is the file that is queued first.
pub fn cmd_audio(cfg: &SirenConfig, cmd: &AudioCmd, queued: Option<&str>, k: &Known) -> (r: Ask)
    ensures
        r@ == audio_ask(cfg@, cmd@, opt_str(queued), *k),
{
    match cmd {
        AudioCmd::Status => match &k.speaker {
            None => Ask::Speaker(heos_target(cfg, None)),
            Some(None) => list(show_audio(cfg, None), 0),
            Some(Some(s)) => match &k.status {
                None => Ask::Status,
                Some(st) => list(show_audio(cfg, Some((s, &st.0, st.1))), 0),
            },
        },
        AudioCmd::Output(v) => set_audio_key(
            cfg,
            "audio_output",
            "output",
            cfg.audio_output.as_str(),
            opt_as_str(v),
            k,
        ),
        AudioCmd::Speaker(v) => set_audio_key(
            cfg,
            "audio_speaker",
            "speaker",
            cfg.audio_speaker.as_str(),
            opt_as_str(v),
            k,
        ),
        AudioCmd::Vol(v) => audio_volume(cfg, opt_as_str(v), k),
        AudioCmd::Test => audio_test(cfg, queued, k),
        AudioCmd::Queue(args) => cmd_speaker_queue(cfg, args, k),
    }
}

// ---- the speaker's queue ----

/// The speaker that arguments name, and the arguments without that; read from the `i`th on.
/// The last naming counts; one without a name takes back what was named.
pub open spec fn split_speaker(
    args: Seq<Seq<char>>,
    i: int,
    hint: Option<Seq<char>>,
    rest: Seq<Seq<char>>,
) -> (Option<Seq<char>>, Seq<Seq<char>>)
    decreases args.len() - i,
{
    if i < 0 || i >= args.len() {
        (hint, rest)
    } else if args[i] == "--speaker"@ || args[i] == "-s"@ {
        if i + 1 < args.len() {
            split_speaker(args, i + 2, Some(args[i + 1]), rest)
        } else {
            (None, rest)
        }
    } else {
        match after_prefix(args[i], "--speaker="@) {
            Some(v) => split_speaker(args, i + 1, Some(v), rest),
            None => split_speaker(args, i + 1, hint, rest.push(args[i])),
        }
    }
}

/// The speaker that arguments name, and the arguments without that.
pub open spec fn speaker_args(args: Seq<Seq<char>>) -> (Option<Seq<char>>, Seq<Seq<char>>) {
    split_speaker(args, 0, None, Seq::empty())
}

fn read_speaker_args(args: &Vec<String>) -> (r: (Option<String>, Vec<String>))
    ensures
        (opt_view(r.0), views(r.1@)) == speaker_args(views(args@)),
{
    let mut hint: Option<String> = None;
    let mut rest: Vec<String> = Vec::new();
    let mut i: usize = 0;
    let ghost all = views(args@);
    assert(views(rest@) == Seq::<Seq<char>>::empty());
    while i < args.len()
        invariant
            all == views(args@),
            i <= args.len(),
            split_speaker(all, i as int, opt_view(hint), views(rest@)) == speaker_args(all),
        decreases args.len() - i,
    {
        assert(all[i as int] == args@[i as int]@);
        let a = args[i].as_str();
        if same(a, "--speaker") || same(a, "-s") {
            if i + 1 < args.len() {
                assert(all[i + 1] == args@[i + 1]@);
                hint = Some(args[i + 1].clone());
                i = i + 2;
            } else {
                return (None, rest);
            }
        } else {
            match strip_prefix(a, "--speaker=") {
                Some(v) => {
                    hint = Some(v);
                },
                None => {
                    let ghost before = views(rest@);
                    rest.push(args[i].clone());
                    assert(views(rest@) == before.push(all[i as int]));
                },
            }
            i = i + 1;
        }
    }
    (hint, rest)
}

/// The first argument in lower case; empty where there is none.
pub open spec fn sub_word(args: Seq<Seq<char>>) -> Seq<char> {
    if args.len() > 0 {
        lower(args[0])
    } else {
        ""@
    }
}

pub(crate) fn read_sub(args: &Vec<String>) -> (s: String)
    ensures
        s@ == sub_word(views(args@)),
{
    assert(views(args@).len() == args.len());
    if args.len() > 0 {
        assert(views(args@)[0] == args@[0]@);
        lowered(args[0].as_str())
    } else {
        "".to_owned()
    }
}

/// The number at a place among the arguments; 0 where there is none.
pub open spec fn number_at(args: Seq<Seq<char>>, i: int) -> int {
    if i < args.len() {
        match int_in(args[i], 0, usize::MAX as int) {
            Some(n) => n,
            None => 0,
        }
    } else {
        0
    }
}

fn read_number(args: &Vec<String>, i: usize) -> (n: usize)
    ensures
        n == number_at(views(args@), i as int),
{
    assert(views(args@).len() == args.len());
    if i < args.len() {
        assert(views(args@)[i as int] == args@[i as int]@);
        match parse_usize(args[i].as_str()) {
            Some(n) => n,
            None => 0,
        }
    } else {
        0
    }
}

/// The queue identifier of the `n`th entry, counted from 1.
pub open spec fn qid_at(entries: Seq<EntryV>, n: int) -> Option<i64> {
    if 1 <= n <= entries.len() {
        Some(entries[n - 1].qid)
    } else {
        None
    }
}

fn read_qid(entries: &Vec<QueueEntry>, n: usize) -> (r: Option<i64>)
    ensures
        r == qid_at(entries_view(entries@), n as int),
{
    assert(entries_view(entries@).len() == entries.len());
    if n >= 1 && n <= entries.len() {
        assert(entries_view(entries@)[n - 1] == entries@[n - 1]@);
        Some(entries[n - 1].qid)
    } else {
        None
    }
}

/// The line of the `i`th entry of a speaker's queue.
pub open spec fn entry_line(i: int, e: EntryV) -> Seq<char> {
    "  "@ + pad(dec(i + 1), 3) + ". "@ + e.song + (if e.artist.len() == 0 {
        ""@
    } else {
        " — "@ + e.artist
    })
}

/// The lines that list a speaker's queue.
pub open spec fn entry_lines(entries: Seq<EntryV>) -> Seq<Seq<char>> {
    if entries.len() == 0 {
        seq!["(speaker queue empty)"@]
    } else {
        Seq::new(entries.len(), |i: int| entry_line(i, entries[i]))
    }
}

fn show_entries(entries: &Vec<QueueEntry>) -> (r: Vec<String>)
    ensures
        views(r@) == entry_lines(entries_view(entries@)),
{
    let ghost all = entries_view(entries@);
    assert(all.len() == entries.len());
    if entries.len() == 0 {
        return one("(speaker queue empty)".to_owned());
    }
    let mut r: Vec<String> = Vec::new();
    for i in 0..entries.len()
        invariant
            all == entries_view(entries@),
            r.len() == i,
            forall|k: int| 0 <= k < i ==> (#[trigger] r@[k])@ == entry_line(k, all[k]),
    {
        let e = &entries[i];
        let artist = if e.artist.as_str().is_empty() {
            "".to_owned()
        } else {
            cat2(" — ", e.artist.as_str())
        };
        let number = pad_left(dec_u64(i as u64 + 1).as_str(), 3);
        r.push(cat5("  ", number.as_str(), ". ", e.song.as_str(), artist.as_str()));
    }
    assert(views(r@) == entry_lines(all));
    r
}

/// How many entries a usage line speaks of: one at least.
pub open spec fn at_least_one(n: int) -> int {
    if n < 1 {
        1
    } else {
        n
    }
}

/// A request about an entry: sent where the entry is there, then reported; else, or where it
/// fails, the usage is.
pub open spec fn entry_ask(
    qid: Option<i64>,
    uri: Seq<char>,
    answer: Option<bool>,
    line: Seq<char>,
    usage: Seq<char>,
) -> AskV {
    match qid {
        None => fails(usage, 1),
        Some(_) => match answer {
            None => AskV::Request(uri),
            Some(true) => says(line, 0),
            Some(false) => fails(usage, 1),
        },
    }
}

/// What `audio queue` asks for.
pub open spec fn speaker_queue_ask(c: ConfigV, all: Seq<Seq<char>>, k: Known) -> AskV {
    let (hint, args) = speaker_args(all);
    let sub = sub_word(args);
    match speaker_known(k) {
        None => AskV::Speaker(speaker_hint(c, hint)),
        Some(None) => fails("no speaker found"@, 1),
        Some(Some(s)) => match k.entries {
            None => AskV::Entries,
            Some(es) => {
                let entries = entries_view(es@);
                let last = dec(at_least_one(entries.len() as int));
                if sub == ""@ || sub == "list"@ || sub == "ls"@ {
                    lists(entry_lines(entries), 0)
                } else if sub == "play"@ || sub == "p"@ {
                    let n = number_at(args, 1);
                    let qid = qid_at(entries, n);
                    entry_ask(
                        qid,
                        player_uri("play_queue"@, s.pid) + "&qid="@ + dec(qid->0 as int),
                        k.answer,
                        "playing #"@ + dec(n) + " on "@ + s.name,
                        "usage: siren audio queue play <1-"@ + last + ">"@,
                    )
                } else if sub == "rm"@ || sub == "remove"@ || sub == "del"@ || sub == "d"@ {
                    let n = number_at(args, 1);
                    let qid = qid_at(entries, n);
                    entry_ask(
                        qid,
                        player_uri("remove_from_queue"@, s.pid) + "&qid="@ + dec(qid->0 as int),
                        k.answer,
                        "removed #"@ + dec(n) + " from "@ + s.name,
                        "usage: siren audio queue rm <1-"@ + last + ">"@,
                    )
                } else if sub == "clear"@ || sub == "c"@ {
                    match k.answer {
                        None => AskV::Request(player_uri("clear_queue"@, s.pid)),
                        Some(true) => says(s.name + " queue cleared"@, 0),
                        Some(false) => fails("clear failed"@, 1),
                    }
                } else if sub == "move"@ || sub == "mv"@ {
                    let f = number_at(args, 1);
                    let t = number_at(args, 2);
                    let from = qid_at(entries, f);
                    let to = qid_at(entries, t);
                    entry_ask(
                        if to is None {
                            None
                        } else {
                            from
                        },
                        player_uri("move_queue_item"@, s.pid) + "&sqid="@ + dec(from->0 as int) + "&dqid="@ + dec(
                            to->0 as int,
                        ),
                        k.answer,
                        "moved #"@ + dec(f) + " → #"@ + dec(t) + " on "@ + s.name,
                        "usage: siren audio queue move <from> <to>"@,
                    )
                } else {
                    fails("usage: siren audio queue [list|play <n>|rm <n>|clear|move <from> <to>]"@, 1)
                }
            },
        },
    }
}

fn ask_entry(uri: Option<String>, answer: Option<bool>, line: String, usage: String, Ghost(qid): Ghost<Option<i64>>) -> (r: Ask)
    requires
        uri is Some <==> qid is Some,
    ensures
        r@ == entry_ask(
            qid,
            match uri {
                Some(u) => u@,
                None => arbitrary(),
            },
            answer,
            line@,
            usage@,
        ),
{
    match uri {
        None => fail(usage, 1),
        Some(u) => match answer {
            None => Ask::Request(u),
            Some(true) => say(line, 0),
            Some(false) => fail(usage, 1),
        },
    }
}

/// `audio queue`: the speaker's own queue. Places are counted from 1.
pub fn cmd_speaker_queue(cfg: &SirenConfig, all: &Vec<String>, k: &Known) -> (r: Ask)
    ensures
        r@ == speaker_queue_ask(cfg@, views(all@), *k),
{
    let (hint, args) = read_speaker_args(all);
    let s = match &k.speaker {
        None => {
            return Ask::Speaker(heos_target(cfg, opt_as_str(&hint)));
        },
        Some(None) => {
            return fail("no speaker found".to_owned(), 1);
        },
        Some(Some(s)) => s,
    };
    let entries = match &k.entries {
        None => {
            return Ask::Entries;
        },
        Some(es) => es,
    };
    assert(entries_view(entries@).len() == entries.len());
    let sub = read_sub(&args);
    let sub = sub.as_str();
    let last = dec_usize(
        if entries.len() < 1 {
            1
        } else {
            entries.len()
        },
    );
    let name = s.name.as_str();
    if same(sub, "") || same(sub, "list") || same(sub, "ls") {
        return list(show_entries(entries), 0);
    }
    if same(sub, "play") || same(sub, "p") {
        let n: usize = read_number(&args, 1);
        let qid = read_qid(entries, n);
        let uri = match qid {
            Some(q) => Some(heos::play_queue(s.pid, q)),
            None => None,
        };
        return ask_entry(
            uri,
            k.answer,
            cat4("playing #", dec_usize(n).as_str(), " on ", name),
            cat3("usage: siren audio queue play <1-", last.as_str(), ">"),
            Ghost(qid),
        );
    }
    if same(sub, "rm") || same(sub, "remove") || same(sub, "del") || same(sub, "d") {
        let n: usize = read_number(&args, 1);
        let qid = read_qid(entries, n);
        let uri = match qid {
            Some(q) => Some(heos::remove_from_queue(s.pid, q)),
            None => None,
        };
        return ask_entry(
            uri,
            k.answer,
            cat4("removed #", dec_usize(n).as_str(), " from ", name),
            cat3("usage: siren audio queue rm <1-", last.as_str(), ">"),
            Ghost(qid),
        );
    }
    if same(sub, "clear") || same(sub, "c") {
        return match k.answer {
            None => Ask::Request(heos::clear_queue(s.pid)),
            Some(true) => say(cat2(name, " queue cleared"), 0),
            Some(false) => fail("clear failed".to_owned(), 1),
        };
    }
    if same(sub, "move") || same(sub, "mv") {
        let f: usize = read_number(&args, 1);
        let t: usize = read_number(&args, 2);
        let from = read_qid(entries, f);
        let to = read_qid(entries, t);
        let uri = match (from, to) {
            (Some(a), Some(b)) => Some(heos::move_queue_item(s.pid, a, b)),
            _ => None,
        };
        return ask_entry(
            uri,
            k.answer,
            cat6("moved #", dec_usize(f).as_str(), " → #", dec_usize(t).as_str(), " on ", name),
            "usage: siren audio queue move <from> <to>".to_owned(),
            Ghost(
                if to is None {
                    None
                } else {
                    from
                },
            ),
        );
    }
    fail("usage: siren audio queue [list|play <n>|rm <n>|clear|move <from> <to>]".to_owned(), 1)
}

/// A setting is changed and stored before it is reported; what is refused changes and stores
/// nothing; what is asked for is shown as it is.
pub proof fn law_config_is_stored(c: ConfigV, key: Seq<char>, value: Seq<char>)
    ensures
        config_set(c, key, value).1 is Ok ==> {
            &&& config_ask(c, Some("set"@), Some(key), Some(value), None) == AskV::Save(config_set(c, key, value).0)
            &&& config_ask(c, Some("set"@), Some(key), Some(value), Some(None)) == says(
                key + " = "@ + config_set(c, key, value).1->Ok_0,
                0,
            )
        },
        config_set(c, key, value).1 is Err ==> (config_ask(c, Some("set"@), Some(key), Some(value), None) matches AskV::End(r)
            && r.code == 1),
        config_get(c, key) matches Some(v) ==> config_ask(c, Some("get"@), Some(key), None, None) == says(key + " = "@ + v, 0),
        config_get(c, key) is None ==> (config_ask(c, Some("get"@), Some(key), None, None) matches AskV::End(r) && r.code == 1),
{
    reveal_strlit("get");
    reveal_strlit("set");
    assert("get"@[0] == 'g' && "set"@[0] == 's');
}

/// Every key is listed with its value, one on a line, in their order.
pub proof fn law_config_is_listed(c: ConfigV, i: int)
    requires
        0 <= i < config_keys().len(),
    ensures
        config_lines(c).len() == config_keys().len(),
        config_get(c, config_keys()[i]) matches Some(v) ==> config_lines(c)[i] == config_keys()[i] + " = "@ + v,
{
}

/// A volume is read with a percent sign behind it or without, and white space around it.
pub proof fn law_level_is_read(v: Seq<char>, n: int)
    requires
        i32::MIN <= n <= i32::MAX,
    ensures
        trim(v) == dec(n) ==> level_of(v) == Some(n),
        trim(v) == dec(n).push('%') ==> level_of(v) == Some(n),
{
    crate::nums::law_dec_reads_back(n, i32::MIN as int, i32::MAX as int);
    crate::nums::lemma_dec_nat(if n < 0 {
        (-n) as nat
    } else {
        n as nat
    });
    let d = dec(n);
    assert(d.len() > 0 && crate::nums::is_digit(d[d.len() - 1])) by {
        if n < 0 {
            let t = crate::nums::dec_nat((-n) as nat);
            assert(d == seq!['-'] + t);
            assert(d[d.len() - 1] == t[t.len() - 1]);
        }
    }
    assert(d.push('%').drop_last() =~= d);
    reveal_with_fuel(crate::text::trim_end_of, 2);
}

/// Setting the volume sends the speaker the level that was asked for, kept between 0 and 100.
pub proof fn law_volume_is_sent(c: ConfigV, v: Seq<char>, n: int, k: Known, s: SpeakerV)
    requires
        level_of(v) == Some(n),
        speaker_known(k) == Some(Some(s)),
    ensures
        k.answer is None && 0 <= n <= 100 ==> audio_ask(c, AudioCmdV::Vol(Some(v)), None, k) == AskV::Request(
            player_uri("set_volume"@, s.pid) + "&level="@ + dec(n),
        ),
        k.answer is None && n > 100 ==> audio_ask(c, AudioCmdV::Vol(Some(v)), None, k) == AskV::Request(
            player_uri("set_volume"@, s.pid) + "&level="@ + dec(100),
        ),
        k.answer is None && n < 0 ==> audio_ask(c, AudioCmdV::Vol(Some(v)), None, k) == AskV::Request(
            player_uri("set_volume"@, s.pid) + "&level="@ + dec(0),
        ),
        k.answer == Some(true) && 0 <= n <= 100 ==> audio_ask(c, AudioCmdV::Vol(Some(v)), None, k) == says(
            s.name + " volume → "@ + dec(n) + "%"@,
            0,
        ),
        k.answer == Some(false) ==> (audio_ask(c, AudioCmdV::Vol(Some(v)), None, k) matches AskV::End(r) && r.code == 1),
{
}

/// Choosing an output or a speaker stores the choice; without a choice the present one is shown.
pub proof fn law_routing_is_stored(c: ConfigV, v: Seq<char>, k: Known)
    requires
        k.saved is None,
    ensures
        config_set(c, "audio_output"@, v).1 is Ok ==> audio_ask(c, AudioCmdV::Output(Some(v)), None, k) == AskV::Save(
            config_set(c, "audio_output"@, v).0,
        ),
        config_set(c, "audio_speaker"@, v).1 is Ok ==> audio_ask(c, AudioCmdV::Speaker(Some(v)), None, k) == AskV::Save(
            config_set(c, "audio_speaker"@, v).0,
        ),
        audio_ask(c, AudioCmdV::Output(None), None, k) == says(c.audio_output, 0),
        audio_ask(c, AudioCmdV::Speaker(None), None, k) == says(c.audio_speaker, 0),
{
}

/// The speaker that is used is the one that was named, else the one that is configured.
pub proof fn law_named_speaker_is_used(c: ConfigV, hint: Seq<char>)
    ensures
        speaker_hint(c, Some(hint)) == Some(hint),
        !blank(c.audio_speaker) ==> speaker_hint(c, None) == Some(c.audio_speaker),
        blank(c.audio_speaker) ==> speaker_hint(c, None) is None,
{
}

/// A test casts what plays; where nothing does, what is queued first; else the first track of the
/// library.
pub proof fn law_test_casts(now: Seq<char>, queued: Option<Seq<char>>, top: Option<Option<Seq<char>>>, q: Seq<char>)
    ensures
        now.len() > 0 ==> test_pick(now, queued, top) == Some(Some(now)),
        now.len() == 0 && queued == Some(q) ==> test_pick(now, queued, top) == Some(Some(q)),
        now.len() == 0 && queued is None ==> test_pick(now, queued, top) == top,
{
}

/// An entry of the speaker's queue is meant by its place, counted from one: what is played, removed
/// or moved is the entry at that place, by its own number.
pub proof fn law_entry_is_meant_by_its_place(
    c: ConfigV,
    args: Seq<Seq<char>>,
    k: Known,
    s: SpeakerV,
    es: Seq<EntryV>,
    n: int,
    m: int,
)
    requires
        forall|i: int| 0 <= i < args.len() ==> names_no_speaker(#[trigger] args[i]),
        speaker_known(k) == Some(Some(s)),
        k.entries is Some && entries_view(k.entries->0@) == es,
        k.answer is None,
        1 <= n <= es.len() <= usize::MAX,
        1 <= m <= es.len(),
        args.len() >= 2 && args[1] == dec(n),
    ensures
        args[0] == "play"@ ==> speaker_queue_ask(c, args, k) == AskV::Request(
            player_uri("play_queue"@, s.pid) + "&qid="@ + dec(es[n - 1].qid as int),
        ),
        args[0] == "rm"@ ==> speaker_queue_ask(c, args, k) == AskV::Request(
            player_uri("remove_from_queue"@, s.pid) + "&qid="@ + dec(es[n - 1].qid as int),
        ),
        args[0] == "move"@ && args.len() >= 3 && args[2] == dec(m) ==> speaker_queue_ask(c, args, k) == AskV::Request(
            player_uri("move_queue_item"@, s.pid) + "&sqid="@ + dec(es[n - 1].qid as int) + "&dqid="@ + dec(
                es[m - 1].qid as int,
            ),
        ),
{
    reveal_strlit("");
    reveal_strlit("list");
    reveal_strlit("ls");
    reveal_strlit("play");
    reveal_strlit("p");
    reveal_strlit("rm");
    reveal_strlit("remove");
    reveal_strlit("del");
    reveal_strlit("d");
    reveal_strlit("clear");
    reveal_strlit("c");
    reveal_strlit("move");
    reveal_strlit("mv");
    assert(""@.len() == 0);
    assert("list"@.len() == 4);
    assert("ls"@.len() == 2);
    assert("play"@.len() == 4);
    assert("p"@.len() == 1);
    assert("rm"@.len() == 2);
    assert("remove"@.len() == 6);
    assert("del"@.len() == 3);
    assert("d"@.len() == 1);
    assert("clear"@.len() == 5);
    assert("c"@.len() == 1);
    assert("move"@.len() == 4);
    assert("mv"@.len() == 2);
    assert("play"@[0] != "list"@[0]);
    assert("rm"@[0] != "ls"@[0]);
    assert("d"@[0] != "p"@[0]);
    assert("c"@[0] != "p"@[0]);
    assert("c"@[0] != "d"@[0]);
    assert("move"@[0] != "list"@[0]);
    assert("move"@[0] != "play"@[0]);
    assert("mv"@[0] != "ls"@[0]);
    assert("mv"@[0] != "rm"@[0]);
    lemma_speaker_words(args, 0, None, Seq::empty());
    assert(Seq::<Seq<char>>::empty() + args.skip(0) =~= args);
    crate::nums::law_dec_reads_back(n, 0, usize::MAX as int);
    crate::nums::law_dec_reads_back(m, 0, usize::MAX as int);
    assert(lower("play"@) =~= "play"@);
    assert(lower("rm"@) =~= "rm"@);
    assert(lower("move"@) =~= "move"@);
}

/// A word that names no speaker.
pub open spec fn names_no_speaker(w: Seq<char>) -> bool {
    w != "--speaker"@ && w != "-s"@ && !crate::text::starts(w, "--speaker="@)
}

proof fn lemma_speaker_words(args: Seq<Seq<char>>, i: int, hint: Option<Seq<char>>, rest: Seq<Seq<char>>)
    requires
        0 <= i <= args.len(),
        forall|j: int| i <= j < args.len() ==> names_no_speaker(#[trigger] args[j]),
    ensures
        split_speaker(args, i, hint, rest) == (hint, rest + args.skip(i)),
    decreases args.len() - i,
{
    if i < args.len() {
        assert(names_no_speaker(args[i]));
        lemma_speaker_words(args, i + 1, hint, rest.push(args[i]));
        assert(rest.push(args[i]) + args.skip(i + 1) =~= rest + args.skip(i));
    } else {
        assert(rest + args.skip(i) =~= rest);
    }
}

/// A speaker is named in front of the other words, which stay as they are.
pub proof fn law_speaker_is_named(name: Seq<char>, args: Seq<Seq<char>>)
    requires
        forall|j: int| 0 <= j < args.len() ==> names_no_speaker(#[trigger] args[j]),
    ensures
        speaker_args(args) == (None::<Seq<char>>, args),
        speaker_args(seq!["--speaker"@, name] + args) == (Some(name), args),
        speaker_args(seq!["-s"@, name] + args) == (Some(name), args),
{
    let none = Seq::<Seq<char>>::empty();
    lemma_speaker_words(args, 0, None, none);
    assert(none + args.skip(0) =~= args);
    let a = seq!["--speaker"@, name] + args;
    let b = seq!["-s"@, name] + args;
    assert(a[0] == "--speaker"@ && a[1] == name && b[0] == "-s"@ && b[1] == name);
    assert forall|j: int| 2 <= j < a.len() implies names_no_speaker(#[trigger] a[j]) by {
        assert(a[j] == args[j - 2]);
    }
    assert forall|j: int| 2 <= j < b.len() implies names_no_speaker(#[trigger] b[j]) by {
        assert(b[j] == args[j - 2]);
    }
    lemma_speaker_words(a, 2, Some(name), none);
    lemma_speaker_words(b, 2, Some(name), none);
    assert(none + a.skip(2) =~= args);
    assert(none + b.skip(2) =~= args);
}

/// The speaker's queue is listed by places, counted from one, songs and artists.
pub proof fn law_entries_are_listed(entries: Seq<EntryV>, i: int)
    requires
        0 <= i < entries.len(),
    ensures
        entry_lines(entries).len() == entries.len(),
        entries[i].artist.len() > 0 ==> crate::text::ends(
            entry_lines(entries)[i],
            dec(i + 1) + ". "@ + entries[i].song + (" — "@ + entries[i].artist),
        ),
{
    let e = entries[i];
    let d = dec(i + 1);
    let gap = pad(d, 3).take(pad(d, 3).len() - d.len());
    assert(pad(d, 3) =~= gap + d);
    lemma_entry_line("  "@, gap, d, ". "@, e.song, " — "@ + e.artist);
}

proof fn lemma_entry_line(a: Seq<char>, gap: Seq<char>, d: Seq<char>, dot: Seq<char>, song: Seq<char>, end: Seq<char>)
    ensures
        crate::text::ends(a + (gap + d) + dot + song + end, d + dot + song + end),
{
    let tail = d + dot + song + end;
    let front = a + gap;
    assert(a + (gap + d) + dot + song + end =~= front + tail);
    crate::text::law_has_is_contains(front, tail, Seq::empty());
}

/// What cannot be done of the configuration is said as an error, with what was wrong of it.
pub proof fn law_config_errors_are_said(c: ConfigV, key: Seq<char>, value: Seq<char>, e: Seq<char>, other: Seq<char>)
    ensures
        config_ask(c, Some("get"@), None, None, None) == fails("usage: siren config get <key>"@, 1),
        config_get(c, key) is None ==> config_ask(c, Some("get"@), Some(key), None, None) == fails("unknown key: "@ + key, 1),
        config_ask(c, Some("set"@), Some(key), None, None) == fails("usage: siren config set <key> <value>"@, 1),
        config_set(c, key, value).1 is Ok ==> config_ask(c, Some("set"@), Some(key), Some(value), Some(Some(e))) == fails(
            "save failed: "@ + e,
            1,
        ),
        config_set(c, key, value).1 matches Err(m) ==> config_ask(c, Some("set"@), Some(key), Some(value), None) == fails(
            key + ": "@ + m,
            1,
        ),
        other != "get"@ && other != "set"@ ==> config_ask(c, Some(other), None, None, None) == fails(
            "usage: siren config [get|set] <key> [value] (got "@ + other + ")"@,
            1,
        ),
{
    reveal_strlit("get");
    reveal_strlit("set");
    assert("get"@[0] != "set"@[0]);
}

/// A level that is none is an error, and so is a level that the speaker refuses.
pub proof fn law_volume_errors_are_said(c: ConfigV, text: Seq<char>, queued: Option<Seq<char>>, k: Known, s: SpeakerV)
    requires
        speaker_known(k) == Some(Some(s)),
    ensures
        level_of(text) is None ==> audio_ask(c, AudioCmdV::Vol(Some(text)), queued, k) == fails("volume must be 0-100"@, 1),
        level_of(text) is Some && k.answer == Some(false) ==> audio_ask(c, AudioCmdV::Vol(Some(text)), queued, k) == fails(
            "volume failed"@,
            1,
        ),
{
}

} // verus!
