//! The terminal interface: its state, and what each key, click and result does to it.
//!
//! The state holds plain values. A key changes it and says what is to be done outside; what
//! came of that is handed back to the functions further down.

use vstd::prelude::*;
use crate::config::{ConfigV, SirenConfig};
use crate::heos::{self, clamped, fields, message, players_view, HeosPlayer, PlayerV};
use crate::json::{int_v, jsons, Json, JsonV};
use crate::nums::{dec, dec_i64, dec_u64, dec_usize, int_in, parse_i32};
use crate::paths::{file_stem, file_stem_of};
use crate::player::{command2, mpv2, mpv3, set_bool, set_int, set_text};
use crate::queue::{
    self, base_text, basename, items_view, maybe_resync_queue, resync_steps, resynced, steps_view, with_items, ItemV,
    QueueItem, Session, SessionV, Step, StepV,
};
use crate::text::{
    blank, cat2, cat3, cat4, cat5, cat7, chars_of, contains, copy_list, has, is_blank, is_text, lower, lowered,
    opt_as_str, opt_str, opt_view, same, split_at_char, split_once, text_of, trim, trimmed, views, words, words_of,
};
use crate::trove::{
    archive_query, build_query, docs_view, is_kind_token, kind_and_words, search_address, search_url, Doc, DocV,
};

verus! {

// ---- state ----

/// What the upper box shows.
#[derive(Clone, Copy, PartialEq, Eq, Structural)]
pub enum Pane {
    Browser,
    Queue,
    Audio,
    Trove,
}

/// How many views there are.
pub const PANE_COUNT: usize = 4;

/// The view at a place of the cycle.
pub open spec fn pane_at(focus: int) -> Pane {
    if focus == 0 {
        Pane::Browser
    } else if focus == 1 {
        Pane::Queue
    } else if focus == 2 {
        Pane::Audio
    } else {
        Pane::Trove
    }
}

/// The name of a view.
pub open spec fn title_text(v: Pane) -> Seq<char> {
    match v {
        Pane::Browser => "browser"@,
        Pane::Queue => "queue"@,
        Pane::Audio => "audio"@,
        Pane::Trove => "trove"@,
    }
}

/// The keys of a view.
pub open spec fn menu_text(v: Pane) -> Seq<char> {
    match v {
        Pane::Browser => "enter play · a add · c cast · / filter · S save · L load · R rm"@,
        Pane::Queue => "enter play-from · d remove · c clear"@,
        Pane::Audio => "o output · s speaker · S shuffle · r repeat · p pause · v refresh · t test · m mute"@,
        Pane::Trove => "s search · enter pick vers · 1-9 dl · a all · f format · j/k move"@,
    }
}

impl Pane {
    /// Its name.
    pub fn title(&self) -> (s: &'static str)
        ensures
            s@ == title_text(*self),
    {
        match self {
            Pane::Browser => "browser",
            Pane::Queue => "queue",
            Pane::Audio => "audio",
            Pane::Trove => "trove",
        }
    }

    /// Its keys.
    pub fn menu(&self) -> (s: &'static str)
        ensures
            s@ == menu_text(*self),
    {
        match self {
            Pane::Browser => "enter play · a add · c cast · / filter · S save · L load · R rm",
            Pane::Queue => "enter play-from · d remove · c clear",
            Pane::Audio => "o output · s speaker · S shuffle · r repeat · p pause · v refresh · t test · m mute",
            Pane::Trove => "s search · enter pick vers · 1-9 dl · a all · f format · j/k move",
        }
    }
}

/// What a line of input is for.
#[derive(Clone, Copy, PartialEq, Eq, Structural)]
pub enum InputMode {
    Filter,
    SavePl,
    LoadPl,
    RmPl,
    TroveSearch,
}

/// A key.
#[derive(Clone, Copy)]
pub enum Key {
    Char(char),
    Enter,
    Esc,
    Tab,
    BackTab,
    Backspace,
    Up,
    Down,
    Other,
}

/// The state of the trove view.
pub struct TroveState {
    pub query: String,
    pub docs: Vec<Doc>,
    pub total: u64,
    pub sel: usize,
    pub searching: bool,
    pub dl_active: bool,
    pub log: Vec<String>,
    /// The file whose progress the last line of the log shows.
    pub dl_prog_file: Option<String>,
    /// The format of this session.
    pub fmt: String,
    /// The result that waits for a format, and the formats.
    pub fmt_for: Option<usize>,
    pub fmt_opts: Vec<String>,
    pub fmt_pending: bool,
}

/// The model of a [`TroveState`].
#[verifier::ext_equal]
pub struct TroveStateV {
    pub query: Seq<char>,
    pub docs: Seq<DocV>,
    pub total: u64,
    pub sel: usize,
    pub searching: bool,
    pub dl_active: bool,
    pub log: Seq<Seq<char>>,
    pub dl_prog_file: Option<Seq<char>>,
    pub fmt: Seq<char>,
    pub fmt_for: Option<usize>,
    pub fmt_opts: Seq<Seq<char>>,
    pub fmt_pending: bool,
}

impl View for TroveState {
    type V = TroveStateV;

    open spec fn view(&self) -> TroveStateV {
        TroveStateV {
            query: self.query@,
            docs: docs_view(self.docs@),
            total: self.total,
            sel: self.sel,
            searching: self.searching,
            dl_active: self.dl_active,
            log: views(self.log@),
            dl_prog_file: opt_view(self.dl_prog_file),
            fmt: self.fmt@,
            fmt_for: self.fmt_for,
            fmt_opts: views(self.fmt_opts@),
            fmt_pending: self.fmt_pending,
        }
    }
}

/// The speakers that were seen.
pub struct AudioState {
    pub roster: Vec<HeosPlayer>,
    pub dlna_ok: bool,
}

/// The model of an [`AudioState`].
#[verifier::ext_equal]
pub struct AudioStateV {
    pub roster: Seq<PlayerV>,
    pub dlna_ok: bool,
}

impl View for AudioState {
    type V = AudioStateV;

    open spec fn view(&self) -> AudioStateV {
        AudioStateV { roster: players_view(self.roster@), dlna_ok: self.dlna_ok }
    }
}

/// The state of the interface.
pub struct App {
    pub cfg: SirenConfig,
    pub focus: usize,
    pub browser_sel: usize,
    pub queue_sel: usize,
    pub filter: String,
    pub input: Option<InputMode>,
    pub input_buf: String,
    pub msg: String,
    /// Whether the message is one that was not shown yet.
    pub msg_new: bool,
    pub audio: AudioState,
    pub trove: TroveState,
    pub spk_pending: bool,
    pub spk_force: bool,
    pub mpv_label: String,
    pub mpv_paused: bool,
    pub mpv_vol: i64,
}

/// The model of an [`App`].
#[verifier::ext_equal]
pub struct AppV {
    pub cfg: ConfigV,
    pub focus: usize,
    pub browser_sel: usize,
    pub queue_sel: usize,
    pub filter: Seq<char>,
    pub input: Option<InputMode>,
    pub input_buf: Seq<char>,
    pub msg: Seq<char>,
    pub msg_new: bool,
    pub audio: AudioStateV,
    pub trove: TroveStateV,
    pub spk_pending: bool,
    pub spk_force: bool,
    pub mpv_label: Seq<char>,
    pub mpv_paused: bool,
    pub mpv_vol: i64,
}

impl View for App {
    type V = AppV;

    open spec fn view(&self) -> AppV {
        AppV {
            cfg: self.cfg@,
            focus: self.focus,
            browser_sel: self.browser_sel,
            queue_sel: self.queue_sel,
            filter: self.filter@,
            input: self.input,
            input_buf: self.input_buf@,
            msg: self.msg@,
            msg_new: self.msg_new,
            audio: self.audio@,
            trove: self.trove@,
            spk_pending: self.spk_pending,
            spk_force: self.spk_force,
            mpv_label: self.mpv_label@,
            mpv_paused: self.mpv_paused,
            mpv_vol: self.mpv_vol,
        }
    }
}

impl AppV {
    /// What the state keeps: the focus is on one of the views, and each selection can go one
    /// further.
    pub open spec fn wf(self) -> bool {
        &&& self.focus < PANE_COUNT
        &&& self.browser_sel < usize::MAX
        &&& self.queue_sel < usize::MAX
        &&& self.trove.sel < usize::MAX
    }

    /// The focused view.
    pub open spec fn pane(self) -> Pane {
        pane_at(self.focus as int)
    }

    /// With a message.
    pub open spec fn says(self, m: Seq<char>) -> AppV {
        AppV { msg: m, msg_new: true, ..self }
    }

    /// With a line of input opened.
    pub open spec fn asks(self, mode: InputMode) -> AppV {
        AppV { input: Some(mode), input_buf: Seq::empty(), ..self }
    }

    /// With the trove view in another state.
    pub open spec fn with_trove(self, t: TroveStateV) -> AppV {
        AppV { trove: t, ..self }
    }
}

/// The state at the start.
pub open spec fn fresh_app(c: ConfigV) -> AppV {
    AppV {
        cfg: c,
        focus: 0,
        browser_sel: 0,
        queue_sel: 0,
        filter: ""@,
        input: None,
        input_buf: ""@,
        msg: ""@,
        msg_new: false,
        audio: AudioStateV { roster: Seq::empty(), dlna_ok: false },
        trove: TroveStateV {
            query: ""@,
            docs: Seq::empty(),
            total: 0,
            sel: 0,
            searching: false,
            dl_active: false,
            log: Seq::empty(),
            dl_prog_file: None,
            fmt: "mp3"@,
            fmt_for: None,
            fmt_opts: Seq::empty(),
            fmt_pending: false,
        },
        spk_pending: false,
        spk_force: true,
        mpv_label: ""@,
        mpv_paused: false,
        mpv_vol: 75,
    }
}

/// What is to be done outside.
pub enum Act {
    Nothing,
    Quit,
    /// The next track, or the previous one.
    Skip(bool),
    /// The speaker's volume up or down by this much.
    Volume(i64),
    /// Send mpv a command.
    Mpv(Json),
    /// Play a file here.
    PlayFile(String),
    /// Cast a file.
    Cast(String),
    /// Play the queue from a place; the flag says whether the message is owed that it plays.
    PlayQueue(usize, bool),
    /// Take these steps.
    Steps(Vec<Step>),
    SaveList(String),
    LoadList(String),
    RemoveList(String),
    /// Search the trove.
    Search(String),
    /// Ask which formats the result at a place has.
    Formats(usize, Doc),
    /// Download these in a format; none is all of them.
    Download(Vec<Doc>, Option<String>),
    /// Pause the speaker, or let it go on.
    TogglePause,
    Shuffle,
    Repeat,
    SaveConfig,
    /// Look for speakers, then take the next one.
    CycleSpeaker,
    /// Look for speakers.
    Refresh,
    Mute,
}

/// The model of an [`Act`].
#[verifier::ext_equal]
pub enum ActV {
    Nothing,
    Quit,
    Skip(bool),
    Volume(i64),
    Mpv(JsonV),
    PlayFile(Seq<char>),
    Cast(Seq<char>),
    PlayQueue(usize, bool),
    Steps(Seq<StepV>),
    SaveList(Seq<char>),
    LoadList(Seq<char>),
    RemoveList(Seq<char>),
    Search(Seq<char>),
    Formats(usize, DocV),
    Download(Seq<DocV>, Option<Seq<char>>),
    TogglePause,
    Shuffle,
    Repeat,
    SaveConfig,
    CycleSpeaker,
    Refresh,
    Mute,
}

impl View for Act {
    type V = ActV;

    open spec fn view(&self) -> ActV {
        match self {
            Act::Nothing => ActV::Nothing,
            Act::Quit => ActV::Quit,
            Act::Skip(f) => ActV::Skip(*f),
            Act::Volume(d) => ActV::Volume(*d),
            Act::Mpv(j) => ActV::Mpv(j@),
            Act::PlayFile(p) => ActV::PlayFile(p@),
            Act::Cast(p) => ActV::Cast(p@),
            Act::PlayQueue(i, s) => ActV::PlayQueue(*i, *s),
            Act::Steps(v) => ActV::Steps(steps_view(v@)),
            Act::SaveList(n) => ActV::SaveList(n@),
            Act::LoadList(n) => ActV::LoadList(n@),
            Act::RemoveList(n) => ActV::RemoveList(n@),
            Act::Search(q) => ActV::Search(q@),
            Act::Formats(i, d) => ActV::Formats(*i, d@),
            Act::Download(d, f) => ActV::Download(docs_view(d@), opt_view(*f)),
            Act::TogglePause => ActV::TogglePause,
            Act::Shuffle => ActV::Shuffle,
            Act::Repeat => ActV::Repeat,
            Act::SaveConfig => ActV::SaveConfig,
            Act::CycleSpeaker => ActV::CycleSpeaker,
            Act::Refresh => ActV::Refresh,
            Act::Mute => ActV::Mute,
        }
    }
}

impl App {
    /// The state at the start.
    pub fn new(cfg: &SirenConfig) -> (a: App)
        ensures
            a@ == fresh_app(cfg@),
            a@.wf(),
    {
        let a = App {
            cfg: cfg.copy(),
            focus: 0,
            browser_sel: 0,
            queue_sel: 0,
            filter: "".to_owned(),
            input: None,
            input_buf: "".to_owned(),
            msg: "".to_owned(),
            msg_new: false,
            audio: AudioState { roster: Vec::new(), dlna_ok: false },
            trove: TroveState {
                query: "".to_owned(),
                docs: Vec::new(),
                total: 0,
                sel: 0,
                searching: false,
                dl_active: false,
                log: Vec::new(),
                dl_prog_file: None,
                fmt: "mp3".to_owned(),
                fmt_for: None,
                fmt_opts: Vec::new(),
                fmt_pending: false,
            },
            spk_pending: false,
            spk_force: true,
            mpv_label: "".to_owned(),
            mpv_paused: false,
            mpv_vol: 75,
        };
        assert(a@ == fresh_app(cfg@));
        a
    }

    /// The focused view.
    pub fn pane(&self) -> (v: Pane)
        ensures
            v == self@.pane(),
    {
        match self.focus {
            0 => Pane::Browser,
            1 => Pane::Queue,
            2 => Pane::Audio,
            _ => Pane::Trove,
        }
    }

    /// Whether the audio goes to the speaker.
    pub fn is_heos(&self) -> (b: bool)
        ensures
            b == self@.cfg.to_speaker(),
    {
        self.cfg.use_heos()
    }

    /// Shows a message.
    pub fn say(&mut self, m: String)
        ensures
            final(self)@ == old(self)@.says(m@),
    {
        self.msg = m;
        self.msg_new = true;
    }

    fn ask(&mut self, mode: InputMode)
        ensures
            final(self)@ == old(self)@.asks(mode),
    {
        self.input = Some(mode);
        self.input_buf = "".to_owned();
        proof {
            reveal_strlit("");
        }
        assert(self.input_buf@ == Seq::<char>::empty());
    }

    /// Asks for a look at the speakers.
    pub fn force_speaker_poll(&mut self)
        ensures
            final(self)@ == (AppV { spk_force: true, ..old(self)@ }),
    {
        self.spk_force = true;
    }
}

/// The last part of a path, or the path itself.
pub fn path_name(p: &str) -> (r: String)
    ensures
        r@ == base_text(p@),
{
    basename(p)
}

/// The file stem of a path, or else its last part.
pub open spec fn stem_text(p: Seq<char>) -> Seq<char> {
    match file_stem(p) {
        Some(s) => s,
        None => base_text(p),
    }
}

/// The file stem of a path, or else its last part.
pub fn stem_name(p: &str) -> (r: String)
    ensures
        r@ == stem_text(p@),
{
    match file_stem_of(p) {
        Some(s) => s,
        None => path_name(p),
    }
}

// ---- moving ----

/// One further in a list of `n`; an empty list is not moved in.
pub open spec fn stepped_down(sel: usize, n: int) -> usize {
    if n > 0 {
        if sel + 1 <= n - 1 {
            (sel + 1) as usize
        } else {
            (n - 1) as usize
        }
    } else {
        sel
    }
}

/// One back.
pub open spec fn stepped_up(sel: usize) -> usize {
    if sel > 0 {
        (sel - 1) as usize
    } else {
        0
    }
}

fn step_down(sel: usize, n: usize) -> (r: usize)
    requires
        sel < usize::MAX,
    ensures
        r == stepped_down(sel, n as int),
{
    if n > 0 {
        if sel + 1 <= n - 1 {
            sel + 1
        } else {
            n - 1
        }
    } else {
        sel
    }
}

fn step_up(sel: usize) -> (r: usize)
    ensures
        r == stepped_up(sel),
{
    if sel > 0 {
        sel - 1
    } else {
        0
    }
}

/// A selection after the wheel turned: one further or back, and inside the list. An empty
/// list is not moved in.
pub open spec fn scrolled(sel: usize, n: int, down: bool) -> usize {
    if n == 0 {
        sel
    } else {
        clamped(
            sel + (if down {
                1int
            } else {
                -1int
            }),
            0,
            n - 1,
        ) as usize
    }
}

fn scroll(sel: usize, n: usize, down: bool) -> (r: usize)
    requires
        sel < usize::MAX,
    ensures
        r == scrolled(sel, n as int, down),
{
    if n == 0 {
        return sel;
    }
    let next: usize = if down {
        sel + 1
    } else {
        step_up(sel)
    };
    if next > n - 1 {
        n - 1
    } else {
        next
    }
}

/// The state after the wheel turned; `tracks` and `queued` are the lengths of the two lists.
pub open spec fn scrolled_app(a: AppV, down: bool, tracks: int, queued: int) -> AppV {
    match a.pane() {
        Pane::Browser => AppV { browser_sel: scrolled(a.browser_sel, tracks, down), ..a },
        Pane::Queue => AppV { queue_sel: scrolled(a.queue_sel, queued, down), ..a },
        Pane::Trove => a.with_trove(TroveStateV { sel: scrolled(a.trove.sel, a.trove.docs.len() as int, down), ..a.trove }),
        Pane::Audio => a,
    }
}

/// The wheel scrolls the list of the focused view.
pub fn scroll_by(app: &mut App, down: bool, tracks: usize, queued: usize)
    requires
        old(app)@.wf(),
    ensures
        final(app)@ == scrolled_app(old(app)@, down, tracks as int, queued as int),
        final(app)@.wf(),
{
    match app.pane() {
        Pane::Browser => {
            app.browser_sel = scroll(app.browser_sel, tracks, down);
        },
        Pane::Queue => {
            app.queue_sel = scroll(app.queue_sel, queued, down);
        },
        Pane::Trove => {
            assert(docs_view(app.trove.docs@).len() == app.trove.docs.len());
            app.trove.sel = scroll(app.trove.sel, app.trove.docs.len(), down);
        },
        Pane::Audio => {},
    }
}

// ---- trove actions ----

/// The results at these places.
pub open spec fn docs_at(docs: Seq<DocV>, idxs: Seq<usize>) -> Seq<DocV>
    decreases idxs.len(),
{
    if idxs.len() == 0 {
        Seq::empty()
    } else {
        let rest = docs_at(docs, idxs.drop_last());
        if (idxs.last() as int) < docs.len() {
            rest.push(docs[idxs.last() as int])
        } else {
            rest
        }
    }
}

/// The format of a download: the given one, else that of the session; none is all of them.
pub open spec fn download_format(session: Seq<char>, format: Option<Seq<char>>) -> Option<Seq<char>> {
    match format {
        Some(f) => Some(f),
        None => if session == "all"@ {
            None
        } else {
            Some(session)
        },
    }
}

/// The line that announces a download.
pub open spec fn download_line(n: int, format: Option<Seq<char>>) -> Seq<char> {
    "↓ "@ + dec(n) + " item(s) ["@ + (match format {
        Some(f) => f,
        None => "all"@,
    }) + "]…"@
}

/// What a download of the results at these places does. One at a time runs.
pub open spec fn download_started(a: AppV, idxs: Seq<usize>, format: Option<Seq<char>>) -> (AppV, ActV) {
    let docs = docs_at(a.trove.docs, idxs);
    let fmt = download_format(a.trove.fmt, format);
    if a.trove.dl_active {
        (a.says("download already running"@), ActV::Nothing)
    } else if docs.len() == 0 {
        (a, ActV::Nothing)
    } else {
        (
            a.with_trove(
                TroveStateV {
                    dl_active: true,
                    log: a.trove.log.push(download_line(docs.len() as int, fmt)),
                    dl_prog_file: None,
                    ..a.trove
                },
            ),
            ActV::Download(docs, fmt),
        )
    }
}

/// Downloads the results at these places.
#[verifier::rlimit(40)]
pub fn trove_download(app: &mut App, idxs: &Vec<usize>, format: Option<String>) -> (r: Act)
    ensures
        (final(app)@, r@) == download_started(old(app)@, idxs@, opt_view(format)),
{
    if app.trove.dl_active {
        app.say("download already running".to_owned());
        return Act::Nothing;
    }
    let mut docs: Vec<Doc> = Vec::new();
    let ghost all = docs_view(app.trove.docs@);
    assert(docs_view(docs@) == docs_at(all, idxs@.take(0)));
    for k in 0..idxs.len()
        invariant
            all == docs_view(app.trove.docs@),
            docs_view(docs@) == docs_at(all, idxs@.take(k as int)),
            *app == *old(app),
    {
        let i: usize = idxs[k];
        assert(idxs@.take(k + 1).drop_last() == idxs@.take(k as int));
        assert(idxs@.take(k + 1).last() == i);
        assert(all.len() == app.trove.docs.len());
        if i < app.trove.docs.len() {
            let ghost before = docs_view(docs@);
            docs.push(app.trove.docs[i].copy());
            assert(docs_view(docs@) == before.push(all[i as int]));
        }
    }
    assert(idxs@.take(idxs.len() as int) == idxs@);
    assert(docs_view(docs@).len() == docs.len());
    if docs.len() == 0 {
        return Act::Nothing;
    }
    let fmt = match format {
        Some(f) => Some(f),
        None => {
            if same(app.trove.fmt.as_str(), "all") {
                None
            } else {
                Some(app.trove.fmt.clone())
            }
        },
    };
    let shown = match &fmt {
        Some(f) => f.as_str(),
        None => "all",
    };
    let line = cat5("↓ ", dec_usize(docs.len()).as_str(), " item(s) [", shown, "]…");
    app.trove.dl_active = true;
    app.trove.log.push(line);
    assert(views(app.trove.log@) == views(old(app).trove.log@).push(line@));
    app.trove.dl_prog_file = None;
    Act::Download(docs, fmt)
}

/// What a question for the formats of the result at a place does.
pub open spec fn format_asked(a: AppV, idx: usize) -> (AppV, ActV) {
    if idx < a.trove.docs.len() {
        (
            a.with_trove(TroveStateV { fmt_for: Some(idx), fmt_opts: Seq::empty(), fmt_pending: true, ..a.trove }),
            ActV::Formats(idx, a.trove.docs[idx as int]),
        )
    } else {
        (a, ActV::Nothing)
    }
}

/// Asks which formats the result at a place has.
pub fn trove_ask_format(app: &mut App, idx: usize) -> (r: Act)
    ensures
        (final(app)@, r@) == format_asked(old(app)@, idx),
{
    assert(docs_view(app.trove.docs@).len() == app.trove.docs.len());
    if idx >= app.trove.docs.len() {
        return Act::Nothing;
    }
    let d = app.trove.docs[idx].copy();
    assert(docs_view(app.trove.docs@)[idx as int] == d@);
    app.trove.fmt_for = Some(idx);
    app.trove.fmt_opts = Vec::new();
    assert(views(app.trove.fmt_opts@) == Seq::<Seq<char>>::empty());
    app.trove.fmt_pending = true;
    Act::Formats(idx, d)
}

/// The formats of a session.
pub open spec fn session_formats() -> Seq<Seq<char>> {
    seq!["mp3"@, "flac"@, "ogg"@, "wav"@, "opus"@, "m4a"@, "all"@]
}

/// The format of the session after the key for it.
pub open spec fn next_format(cur: Seq<char>) -> Seq<char> {
    if cur == "mp3"@ {
        "flac"@
    } else if cur == "flac"@ {
        "ogg"@
    } else if cur == "ogg"@ {
        "wav"@
    } else if cur == "wav"@ {
        "opus"@
    } else if cur == "opus"@ {
        "m4a"@
    } else if cur == "m4a"@ {
        "all"@
    } else if cur == "all"@ {
        "mp3"@
    } else {
        "flac"@
    }
}

fn cycle_format(cur: &str) -> (s: String)
    ensures
        s@ == next_format(cur@),
{
    let next = if same(cur, "mp3") {
        "flac"
    } else if same(cur, "flac") {
        "ogg"
    } else if same(cur, "ogg") {
        "wav"
    } else if same(cur, "wav") {
        "opus"
    } else if same(cur, "opus") {
        "m4a"
    } else if same(cur, "m4a") {
        "all"
    } else if same(cur, "all") {
        "mp3"
    } else {
        "flac"
    };
    next.to_owned()
}

/// The digit that a key is.
pub open spec fn digit_key(key: Key) -> Option<int> {
    match key {
        Key::Char(c) => if '0' <= c && c <= '9' {
            Some(c as int - '0' as int)
        } else {
            None
        },
        _ => None,
    }
}

fn digit_of(key: Key) -> (r: Option<usize>)
    ensures
        match r {
            Some(d) => digit_key(key) == Some(d as int),
            None => digit_key(key) is None,
        },
{
    match key {
        Key::Char(c) => {
            if '0' <= c && c <= '9' {
                Some((c as u32 - '0' as u32) as usize)
            } else {
                None
            }
        },
        _ => None,
    }
}

/// The numbers below `n`.
pub open spec fn below(n: int) -> Seq<usize> {
    Seq::new(n as nat, |i: int| i as usize)
}

fn all_below(n: usize) -> (r: Vec<usize>)
    ensures
        r@ == below(n as int),
{
    let mut r: Vec<usize> = Vec::new();
    for i in 0..n
        invariant
            r@ == below(i as int),
    {
        r.push(i);
        assert(r@ == below(i + 1));
    }
    r
}

fn one_index(i: usize) -> (r: Vec<usize>)
    ensures
        r@ == seq![i],
{
    let mut r: Vec<usize> = Vec::new();
    r.push(i);
    assert(r@ == seq![i]);
    r
}

/// What a key does where a result waits for a format: a digit picks one.
pub open spec fn format_key(a: AppV, d: int) -> (AppV, ActV) {
    if 1 <= d <= a.trove.fmt_opts.len() {
        download_started(
            a.with_trove(TroveStateV { fmt_for: None, fmt_opts: Seq::empty(), ..a.trove }),
            seq![a.trove.fmt_for->0],
            Some(a.trove.fmt_opts[d - 1]),
        )
    } else {
        (a, ActV::Nothing)
    }
}

/// What a key does in the trove view.
pub open spec fn trove_key(a: AppV, key: Key) -> (AppV, ActV) {
    let t = a.trove;
    let n = t.docs.len() as int;
    match (digit_key(key), key) {
        (Some(d), _) => if t.fmt_for is Some {
            format_key(a, d)
        } else if 1 <= d <= n {
            download_started(a, seq![(d - 1) as usize], None)
        } else {
            (a, ActV::Nothing)
        },
        (None, Key::Esc) => if t.fmt_for is Some {
            (a.with_trove(TroveStateV { fmt_for: None, fmt_opts: Seq::empty(), ..t }), ActV::Nothing)
        } else {
            (a, ActV::Nothing)
        },
        (None, Key::Down) => (a.with_trove(TroveStateV { sel: stepped_down(t.sel, n), ..t }), ActV::Nothing),
        (None, Key::Up) => (a.with_trove(TroveStateV { sel: stepped_up(t.sel), ..t }), ActV::Nothing),
        (None, Key::Enter) => format_asked(a, t.sel),
        (None, Key::Char(c)) => if c == 'j' {
            (a.with_trove(TroveStateV { sel: stepped_down(t.sel, n), ..t }), ActV::Nothing)
        } else if c == 'k' {
            (a.with_trove(TroveStateV { sel: stepped_up(t.sel), ..t }), ActV::Nothing)
        } else if c == 's' {
            (a.asks(InputMode::TroveSearch), ActV::Nothing)
        } else if c == 'a' {
            download_started(a, below(n), None)
        } else if c == 'f' {
            (
                a.with_trove(TroveStateV { fmt: next_format(t.fmt), ..t }).says("trove format → "@ + next_format(t.fmt)),
                ActV::Nothing,
            )
        } else {
            (a, ActV::Nothing)
        },
        _ => (a, ActV::Nothing),
    }
}

fn drop_format_row(app: &mut App)
    ensures
        final(app)@ == old(app)@.with_trove(
            (TroveStateV { fmt_for: None, fmt_opts: Seq::empty(), ..old(app)@.trove }),
        ),
{
    app.trove.fmt_for = None;
    app.trove.fmt_opts = Vec::new();
    assert(views(app.trove.fmt_opts@) == Seq::<Seq<char>>::empty());
}

/// A key in the trove view.
#[verifier::rlimit(40)]
pub fn handle_trove(app: &mut App, key: Key) -> (r: Act)
    requires
        old(app)@.wf(),
    ensures
        (final(app)@, r@) == trove_key(old(app)@, key),
        final(app)@.wf(),
{
    let n: usize = app.trove.docs.len();
    assert(docs_view(app.trove.docs@).len() == n);
    assert(views(app.trove.fmt_opts@).len() == app.trove.fmt_opts.len());
    match digit_of(key) {
        Some(d) => {
            match app.trove.fmt_for {
                Some(idx) => {
                    if d >= 1 && d <= app.trove.fmt_opts.len() {
                        let f = app.trove.fmt_opts[d - 1].clone();
                        assert(views(app.trove.fmt_opts@)[d - 1] == f@);
                        drop_format_row(app);
                        return trove_download(app, &one_index(idx), Some(f));
                    }
                },
                None => {
                    if d >= 1 && d <= n {
                        return trove_download(app, &one_index(d - 1), None);
                    }
                },
            }
            return Act::Nothing;
        },
        None => {},
    }
    match key {
        Key::Esc => {
            if app.trove.fmt_for.is_some() {
                drop_format_row(app);
            }
        },
        Key::Down | Key::Char('j') => {
            app.trove.sel = step_down(app.trove.sel, n);
        },
        Key::Up | Key::Char('k') => {
            app.trove.sel = step_up(app.trove.sel);
        },
        Key::Char('s') => {
            app.ask(InputMode::TroveSearch);
        },
        Key::Enter => {
            let sel: usize = app.trove.sel;
            return trove_ask_format(app, sel);
        },
        Key::Char('a') => {
            return trove_download(app, &all_below(n), None);
        },
        Key::Char('f') => {
            let next = cycle_format(app.trove.fmt.as_str());
            app.trove.fmt = next.clone();
            app.say(cat2("trove format → ", next.as_str()));
        },
        _ => {},
    }
    Act::Nothing
}

// ---- browser ----

/// The file that is selected in the browser.
pub open spec fn selected_file(a: AppV, files: Seq<Seq<char>>) -> Option<Seq<char>> {
    if a.browser_sel < files.len() {
        Some(files[a.browser_sel as int])
    } else {
        None
    }
}

fn browser_selected(app: &App, files: &Vec<String>) -> (r: Option<String>)
    ensures
        opt_view(r) == selected_file(app@, views(files@)),
{
    assert(views(files@).len() == files.len());
    if app.browser_sel < files.len() {
        assert(views(files@)[app.browser_sel as int] == files@[app.browser_sel as int]@);
        Some(files[app.browser_sel].clone())
    } else {
        None
    }
}

/// How a file is put on: cast where the audio goes to the speaker, else played here.
pub open spec fn play_file(c: ConfigV, p: Seq<char>) -> ActV {
    if c.to_speaker() {
        ActV::Cast(p)
    } else {
        ActV::PlayFile(p)
    }
}

fn play_or_cast(app: &App, p: String) -> (r: Act)
    ensures
        r@ == play_file(app@.cfg, p@),
{
    if app.is_heos() {
        Act::Cast(p)
    } else {
        Act::PlayFile(p)
    }
}

/// The item that the browser queues for a file.
pub open spec fn browsed_item(p: Seq<char>) -> ItemV {
    ItemV { path: p, display: stem_text(p), title: ""@, artist: ""@, duration: "0.0"@ }
}

/// What a key does in the browser; `files` are the files that it lists.
pub open spec fn browser_key(a: AppV, s: SessionV, key: Key, files: Seq<Seq<char>>) -> (AppV, SessionV, ActV) {
    let n = files.len() as int;
    let pick = selected_file(a, files);
    let put_on = (
        a,
        s,
        match pick {
            Some(p) => play_file(a.cfg, p),
            None => ActV::Nothing,
        },
    );
    let down = (AppV { browser_sel: stepped_down(a.browser_sel, n), ..a }, s, ActV::Nothing);
    let up = (AppV { browser_sel: stepped_up(a.browser_sel), ..a }, s, ActV::Nothing);
    match key {
        Key::Down => down,
        Key::Up => up,
        Key::Enter => put_on,
        Key::Char(c) => if c == 'j' {
            down
        } else if c == 'k' {
            up
        } else if c == 'p' || c == ' ' {
            put_on
        } else if c == 'o' {
            (
                a,
                s,
                match pick {
                    Some(p) => ActV::PlayFile(p),
                    None => ActV::Nothing,
                },
            )
        } else if c == 'a' {
            match pick {
                Some(p) => (
                    a.says("queued "@ + base_text(p)),
                    with_items(s, s.items.push(browsed_item(p))),
                    ActV::Steps(seq![StepV::Save]),
                ),
                None => (a, s, ActV::Nothing),
            }
        } else if c == 'c' {
            (
                a,
                s,
                match pick {
                    Some(p) => ActV::Cast(p),
                    None => ActV::Nothing,
                },
            )
        } else if c == '/' {
            (a.asks(InputMode::Filter), s, ActV::Nothing)
        } else if c == 'S' {
            (a.asks(InputMode::SavePl), s, ActV::Nothing)
        } else if c == 'L' {
            (a.asks(InputMode::LoadPl), s, ActV::Nothing)
        } else if c == 'R' {
            (a.asks(InputMode::RmPl), s, ActV::Nothing)
        } else {
            (a, s, ActV::Nothing)
        },
        _ => (a, s, ActV::Nothing),
    }
}

fn one_step(step: Step) -> (r: Vec<Step>)
    ensures
        steps_view(r@) == seq![step@],
{
    let mut r: Vec<Step> = Vec::new();
    r.push(step);
    assert(steps_view(r@) == seq![step@]);
    r
}

fn queue_file(s: &mut Session, p: &str)
    ensures
        final(s)@ == with_items(old(s)@, old(s)@.items.push(browsed_item(p@))),
{
    let it = QueueItem {
        path: p.to_owned(),
        display: stem_name(p),
        title: "".to_owned(),
        artist: "".to_owned(),
        duration: "0.0".to_owned(),
    };
    assert(it@ == browsed_item(p@));
    s.queue.items.push(it);
    assert(s@.items == old(s)@.items.push(it@));
}

/// A key in the browser.
#[verifier::rlimit(40)]
pub fn handle_browser(app: &mut App, s: &mut Session, key: Key, files: &Vec<String>) -> (r: Act)
    requires
        old(app)@.wf(),
    ensures
        (final(app)@, final(s)@, r@) == browser_key(old(app)@, old(s)@, key, views(files@)),
        final(app)@.wf(),
{
    assert(views(files@).len() == files.len());
    match key {
        Key::Down | Key::Char('j') => {
            app.browser_sel = step_down(app.browser_sel, files.len());
        },
        Key::Up | Key::Char('k') => {
            app.browser_sel = step_up(app.browser_sel);
        },
        Key::Enter | Key::Char('p') | Key::Char(' ') => {
            return match browser_selected(app, files) {
                Some(p) => play_or_cast(app, p),
                None => Act::Nothing,
            };
        },
        Key::Char('o') => {
            return match browser_selected(app, files) {
                Some(p) => Act::PlayFile(p),
                None => Act::Nothing,
            };
        },
        Key::Char('a') => {
            return match browser_selected(app, files) {
                Some(p) => {
                    queue_file(s, p.as_str());
                    app.say(cat2("queued ", path_name(p.as_str()).as_str()));
                    Act::Steps(one_step(Step::Save))
                },
                None => Act::Nothing,
            };
        },
        Key::Char('c') => {
            return match browser_selected(app, files) {
                Some(p) => Act::Cast(p),
                None => Act::Nothing,
            };
        },
        Key::Char('/') => {
            app.ask(InputMode::Filter);
        },
        Key::Char('S') => {
            app.ask(InputMode::SavePl);
        },
        Key::Char('L') => {
            app.ask(InputMode::LoadPl);
        },
        Key::Char('R') => {
            app.ask(InputMode::RmPl);
        },
        _ => {},
    }
    Act::Nothing
}

// ---- queue ----

/// How an item of the queue is shown in its list.
pub open spec fn item_name(it: ItemV) -> Seq<char> {
    if it.display.len() == 0 {
        stem_text(it.path)
    } else {
        it.display
    }
}

/// How an item of the queue is shown in its list.
pub fn name_of_item(it: &QueueItem) -> (r: String)
    ensures
        r@ == item_name(it@),
{
    if it.display.as_str().is_empty() {
        stem_name(it.path.as_str())
    } else {
        it.display.clone()
    }
}

/// What a key does in the queue; `cur` is the path that plays.
pub open spec fn queue_key(a: AppV, s: SessionV, key: Key, cur: Seq<char>) -> (AppV, SessionV, ActV) {
    let n = s.items.len() as int;
    let down = (AppV { queue_sel: stepped_down(a.queue_sel, n), ..a }, s, ActV::Nothing);
    let up = (AppV { queue_sel: stepped_up(a.queue_sel), ..a }, s, ActV::Nothing);
    match key {
        Key::Down => down,
        Key::Up => up,
        Key::Enter => (a, s, ActV::PlayQueue(a.queue_sel, true)),
        Key::Char(c) => if c == 'j' {
            down
        } else if c == 'k' {
            up
        } else if c == ' ' {
            (a, s, ActV::PlayQueue(a.queue_sel, true))
        } else if c == 'd' {
            if a.queue_sel < n {
                let now = with_items(s, s.items.remove(a.queue_sel as int));
                (
                    AppV { queue_sel: stepped_up(a.queue_sel), ..a }.says(
                        "Removed: "@ + item_name(s.items[a.queue_sel as int]),
                    ),
                    resynced(now),
                    ActV::Steps(seq![StepV::Save] + resync_steps(now, cur)),
                )
            } else {
                (a, s, ActV::Nothing)
            }
        } else if c == 'c' {
            let now = with_items(s, Seq::empty());
            (
                a.says("Queue cleared."@),
                resynced(now),
                ActV::Steps(seq![StepV::Save] + resync_steps(now, cur)),
            )
        } else if c == 'S' {
            (a.asks(InputMode::SavePl), s, ActV::Nothing)
        } else if c == 'L' {
            (a.asks(InputMode::LoadPl), s, ActV::Nothing)
        } else if c == 'R' {
            (a.asks(InputMode::RmPl), s, ActV::Nothing)
        } else {
            (a, s, ActV::Nothing)
        },
        _ => (a, s, ActV::Nothing),
    }
}

fn save_and_resync(s: &mut Session, cur: &str) -> (r: Vec<Step>)
    ensures
        final(s)@ == resynced(old(s)@),
        steps_view(r@) == seq![StepV::Save] + resync_steps(old(s)@, cur@),
{
    let mut r = one_step(Step::Save);
    let mut more = maybe_resync_queue(s, cur);
    let ghost a = steps_view(r@);
    let ghost b = steps_view(more@);
    r.append(&mut more);
    assert(steps_view(r@) == a + b);
    r
}

/// A key in the queue.
#[verifier::rlimit(40)]
pub fn handle_queue(app: &mut App, s: &mut Session, key: Key, cur: &str) -> (r: Act)
    requires
        old(app)@.wf(),
    ensures
        (final(app)@, final(s)@, r@) == queue_key(old(app)@, old(s)@, key, cur@),
        final(app)@.wf(),
{
    let n: usize = s.queue.items.len();
    assert(items_view(s.queue.items@).len() == n);
    match key {
        Key::Down | Key::Char('j') => {
            app.queue_sel = step_down(app.queue_sel, n);
        },
        Key::Up | Key::Char('k') => {
            app.queue_sel = step_up(app.queue_sel);
        },
        Key::Enter | Key::Char(' ') => {
            return Act::PlayQueue(app.queue_sel, true);
        },
        Key::Char('d') => {
            if app.queue_sel < n {
                let name = name_of_item(&s.queue.items[app.queue_sel]);
                let _ = s.queue.items.remove(app.queue_sel);
                assert(s@.items == old(s)@.items.remove(app.queue_sel as int));
                let steps = save_and_resync(s, cur);
                app.say(cat2("Removed: ", name.as_str()));
                app.queue_sel = step_up(app.queue_sel);
                return Act::Steps(steps);
            }
        },
        Key::Char('c') => {
            s.queue.items = Vec::new();
            assert(s@.items == Seq::<ItemV>::empty());
            let steps = save_and_resync(s, cur);
            app.say("Queue cleared.".to_owned());
            return Act::Steps(steps);
        },
        Key::Char('S') => {
            app.ask(InputMode::SavePl);
        },
        Key::Char('L') => {
            app.ask(InputMode::LoadPl);
        },
        Key::Char('R') => {
            app.ask(InputMode::RmPl);
        },
        _ => {},
    }
    Act::Nothing
}

// ---- audio ----

/// The other output.
pub open spec fn other_output(c: ConfigV) -> Seq<char> {
    if c.to_speaker() {
        "local"@
    } else {
        "heos"@
    }
}

/// The file that a test casts: the one selected in the browser, else the one queued first,
/// else the one playing, else the first of the library.
pub open spec fn test_file(
    a: AppV,
    s: SessionV,
    files: Seq<Seq<char>>,
    cur: Seq<char>,
    top: Option<Seq<char>>,
) -> Option<Seq<char>> {
    match selected_file(a, files) {
        Some(p) => Some(p),
        None => if s.items.len() > 0 {
            Some(s.items[0].path)
        } else if cur.len() > 0 {
            Some(cur)
        } else {
            top
        },
    }
}

/// What a key does in the audio view; `cur` is the path that plays, `top` the first file of
/// the library.
pub open spec fn audio_key(
    a: AppV,
    s: SessionV,
    key: Key,
    files: Seq<Seq<char>>,
    cur: Seq<char>,
    top: Option<Seq<char>>,
) -> (AppV, ActV) {
    match key {
        Key::Char(c) => if c == 'p' || c == ' ' {
            (
                a,
                if a.cfg.to_speaker() {
                    ActV::TogglePause
                } else {
                    ActV::Mpv(mpv2("cycle"@, "pause"@))
                },
            )
        } else if c == 'S' {
            (a, ActV::Shuffle)
        } else if c == 'r' {
            (a, ActV::Repeat)
        } else if c == 'o' {
            (
                AppV { cfg: ConfigV { audio_output: other_output(a.cfg), ..a.cfg }, ..a }.says(
                    "output → "@ + other_output(a.cfg),
                ),
                ActV::SaveConfig,
            )
        } else if c == 's' {
            (AppV { spk_force: true, ..a }, ActV::CycleSpeaker)
        } else if c == 'v' {
            (AppV { spk_force: true, ..a }, ActV::Refresh)
        } else if c == 't' {
            match test_file(a, s, files, cur, top) {
                Some(p) => (a, ActV::Cast(p)),
                None => (a.says("nothing to cast"@), ActV::Nothing),
            }
        } else if c == 'm' {
            (a, ActV::Mute)
        } else {
            (a, ActV::Nothing)
        },
        _ => (a, ActV::Nothing),
    }
}

fn pick_test(app: &App, s: &Session, files: &Vec<String>, cur: &str, top: Option<&str>) -> (r: Option<String>)
    ensures
        opt_view(r) == test_file(app@, s@, views(files@), cur@, opt_str(top)),
{
    match browser_selected(app, files) {
        Some(p) => Some(p),
        None => {
            assert(items_view(s.queue.items@).len() == s.queue.items.len());
            if s.queue.items.len() > 0 {
                Some(s.queue.items[0].path.clone())
            } else if !cur.is_empty() {
                Some(cur.to_owned())
            } else {
                match top {
                    Some(t) => Some(t.to_owned()),
                    None => None,
                }
            }
        },
    }
}

/// A key in the audio view.
#[verifier::rlimit(40)]
pub fn handle_audio(app: &mut App, s: &Session, key: Key, files: &Vec<String>, cur: &str, top: Option<&str>) -> (r: Act)
    requires
        old(app)@.wf(),
    ensures
        (final(app)@, r@) == audio_key(old(app)@, s@, key, views(files@), cur@, opt_str(top)),
        final(app)@.wf(),
{
    match key {
        Key::Char('p') | Key::Char(' ') => {
            if app.is_heos() {
                Act::TogglePause
            } else {
                Act::Mpv(command2("cycle", "pause"))
            }
        },
        Key::Char('S') => Act::Shuffle,
        Key::Char('r') => Act::Repeat,
        Key::Char('o') => {
            let next = if app.is_heos() {
                "local"
            } else {
                "heos"
            };
            app.cfg.audio_output = next.to_owned();
            app.say(cat2("output → ", next));
            Act::SaveConfig
        },
        Key::Char('s') => {
            app.force_speaker_poll();
            Act::CycleSpeaker
        },
        Key::Char('v') => {
            app.force_speaker_poll();
            Act::Refresh
        },
        Key::Char('t') => match pick_test(app, s, files, cur, top) {
            Some(p) => Act::Cast(p),
            None => {
                app.say("nothing to cast".to_owned());
                Act::Nothing
            },
        },
        Key::Char('m') => Act::Mute,
        _ => Act::Nothing,
    }
}

// ---- the line of input ----

/// What a line of input does.
pub open spec fn input_applied(a: AppV, mode: InputMode, val: Seq<char>) -> (AppV, ActV) {
    match mode {
        InputMode::Filter => (AppV { filter: val, browser_sel: 0, ..a }, ActV::Nothing),
        InputMode::SavePl => if blank(val) {
            (a.says("need a name"@), ActV::Nothing)
        } else {
            (a, ActV::SaveList(trim(val)))
        },
        InputMode::LoadPl => (a, ActV::LoadList(trim(val))),
        InputMode::RmPl => (a, ActV::RemoveList(trim(val))),
        InputMode::TroveSearch => if blank(val) {
            (a, ActV::Nothing)
        } else {
            (
                a.with_trove(
                    TroveStateV { query: trim(val), docs: Seq::empty(), sel: 0, searching: true, ..a.trove },
                ),
                ActV::Search(trim(val)),
            )
        },
    }
}

/// A line of input.
#[verifier::rlimit(40)]
pub fn apply_input(app: &mut App, mode: InputMode, val: &str) -> (r: Act)
    requires
        old(app)@.wf(),
    ensures
        (final(app)@, r@) == input_applied(old(app)@, mode, val@),
        final(app)@.wf(),
{
    match mode {
        InputMode::Filter => {
            app.filter = val.to_owned();
            app.browser_sel = 0;
            Act::Nothing
        },
        InputMode::SavePl => {
            if is_blank(val) {
                app.say("need a name".to_owned());
                return Act::Nothing;
            }
            Act::SaveList(trimmed(val))
        },
        InputMode::LoadPl => Act::LoadList(trimmed(val)),
        InputMode::RmPl => Act::RemoveList(trimmed(val)),
        InputMode::TroveSearch => {
            if is_blank(val) {
                return Act::Nothing;
            }
            let q = trimmed(val);
            app.trove.query = q.clone();
            app.trove.docs = Vec::new();
            assert(docs_view(app.trove.docs@) == Seq::<DocV>::empty());
            app.trove.sel = 0;
            app.trove.searching = true;
            Act::Search(q)
        },
    }
}

/// What a key does in a line of input: it takes everything.
pub open spec fn input_key(a: AppV, mode: InputMode, key: Key, ctrl: bool) -> (AppV, ActV) {
    let empty = Seq::<char>::empty();
    match key {
        Key::Esc => (AppV { input: None, input_buf: empty, ..a }, ActV::Nothing),
        Key::Enter => input_applied(AppV { input: None, input_buf: empty, ..a }, mode, a.input_buf),
        Key::Backspace => (
            AppV {
                input_buf: if a.input_buf.len() > 0 {
                    a.input_buf.drop_last()
                } else {
                    a.input_buf
                },
                ..a
            },
            ActV::Nothing,
        ),
        Key::Char(c) => if ctrl && (c == 'u' || c == 'U') {
            (AppV { input_buf: empty, ..a }, ActV::Nothing)
        } else {
            (AppV { input_buf: a.input_buf.push(c), ..a }, ActV::Nothing)
        },
        _ => (a, ActV::Nothing),
    }
}

fn empty_text() -> (s: String)
    ensures
        s@ == Seq::<char>::empty(),
{
    let s = "".to_owned();
    proof {
        reveal_strlit("");
    }
    assert(s@ == Seq::<char>::empty());
    s
}

fn without_last(s: &str) -> (r: String)
    ensures
        r@ == if s@.len() > 0 {
            s@.drop_last()
        } else {
            s@
        },
{
    let mut v = chars_of(s);
    if v.len() > 0 {
        let n: usize = v.len() - 1;
        v.truncate(n);
        assert(v@ == s@.drop_last());
    }
    text_of(&v)
}

#[verifier::rlimit(40)]
fn handle_input(app: &mut App, mode: InputMode, key: Key, ctrl: bool) -> (r: Act)
    requires
        old(app)@.wf(),
    ensures
        (final(app)@, r@) == input_key(old(app)@, mode, key, ctrl),
        final(app)@.wf(),
{
    match key {
        Key::Esc => {
            app.input = None;
            app.input_buf = empty_text();
            Act::Nothing
        },
        Key::Enter => {
            let val = app.input_buf.clone();
            app.input = None;
            app.input_buf = empty_text();
            apply_input(app, mode, val.as_str())
        },
        Key::Backspace => {
            let rest = without_last(app.input_buf.as_str());
            app.input_buf = rest;
            Act::Nothing
        },
        Key::Char(c) => {
            if ctrl && (c == 'u' || c == 'U') {
                app.input_buf = empty_text();
            } else {
                app.input_buf.push(c);
            }
            Act::Nothing
        },
        _ => Act::Nothing,
    }
}

// ---- keys ----

/// What a volume key does: the speaker is asked first, mpv is told at once.
pub open spec fn volume_changed(a: AppV, delta: i64) -> (AppV, ActV) {
    if a.cfg.to_speaker() {
        (a, ActV::Volume(delta))
    } else {
        let next = clamped(a.mpv_vol + delta, 0, 150);
        (
            AppV { mpv_vol: next as i64, ..a }.says("volume → "@ + dec(next) + "%"@),
            ActV::Mpv(mpv3("set_property"@, "volume"@, int_v(next))),
        )
    }
}

/// Turns the volume up or down.
pub fn adjust_volume(app: &mut App, delta: i64) -> (r: Act)
    requires
        old(app)@.wf(),
        old(app)@.cfg.to_speaker() || i64::MIN <= old(app)@.mpv_vol + delta <= i64::MAX,
    ensures
        (final(app)@, r@) == volume_changed(old(app)@, delta),
        final(app)@.wf(),
{
    if app.is_heos() {
        return Act::Volume(delta);
    }
    let sum: i64 = app.mpv_vol + delta;
    let next: i64 = if sum < 0 {
        0
    } else if sum > 150 {
        150
    } else {
        sum
    };
    app.mpv_vol = next;
    app.say(cat3("volume → ", dec_i64(next).as_str(), "%"));
    Act::Mpv(set_int("volume", next))
}

/// By how much a key changes the volume.
pub open spec fn volume_step(key: Key) -> Option<i64> {
    match key {
        Key::Char(c) => if c == '+' || c == '=' {
            Some(5)
        } else if c == '-' || c == '_' {
            Some(-5i64 as i64)
        } else {
            None
        },
        _ => None,
    }
}

/// Whether a key leaves the volume a number that fits.
pub open spec fn volume_fits(a: AppV, key: Key) -> bool {
    match volume_step(key) {
        Some(d) => a.input is Some || a.cfg.to_speaker() || i64::MIN <= a.mpv_vol + d <= i64::MAX,
        None => true,
    }
}

/// Whether a key leaves the volume a number that fits.
pub fn fits_volume(app: &App, key: Key) -> (b: bool)
    ensures
        b == volume_fits(app@, key),
{
    if app.input.is_some() || app.cfg.use_heos() {
        return true;
    }
    match key {
        Key::Char('+') | Key::Char('=') => app.mpv_vol.checked_add(5).is_some(),
        Key::Char('-') | Key::Char('_') => app.mpv_vol.checked_sub(5).is_some(),
        _ => true,
    }
}

/// The place of the cycle after the focused one.
pub open spec fn focus_after(focus: usize) -> usize {
    ((focus + 1) % (PANE_COUNT as int)) as usize
}

/// The place of the cycle before the focused one.
pub open spec fn focus_before(focus: usize) -> usize {
    ((focus + PANE_COUNT - 1) % (PANE_COUNT as int)) as usize
}

/// The application with another view in focus. Entering the audio view forces a look at the
/// speakers.
pub open spec fn entered(a: AppV, focus: usize) -> AppV {
    let b = AppV { focus, ..a };
    if b.pane() == Pane::Audio {
        AppV { spk_force: true, ..b }
    } else {
        b
    }
}

/// What a key does that works in every view; none is a key for the focused one.
pub open spec fn global_key(a: AppV, key: Key) -> Option<(AppV, ActV)> {
    if key == Key::Char('n') {
        Some((a, ActV::Skip(true)))
    } else if key == Key::Char('b') {
        Some((a, ActV::Skip(false)))
    } else if volume_step(key) is Some {
        Some(volume_changed(a, volume_step(key)->0))
    } else if key == Key::Tab {
        Some((entered(a, focus_after(a.focus)), ActV::Nothing))
    } else if key == Key::BackTab {
        Some((entered(a, focus_before(a.focus)), ActV::Nothing))
    } else if key == Key::Char('q') {
        Some((a, ActV::Quit))
    } else if key == Key::Esc {
        if a.pane() == Pane::Trove && a.trove.fmt_for is Some {
            Some((a.with_trove(TroveStateV { fmt_for: None, fmt_opts: Seq::empty(), ..a.trove }), ActV::Nothing))
        } else {
            Some((a, ActV::Quit))
        }
    } else {
        None
    }
}

#[verifier::rlimit(40)]
fn handle_global(app: &mut App, key: Key) -> (r: Option<Act>)
    requires
        old(app)@.wf(),
        old(app)@.input is None,
        volume_fits(old(app)@, key),
    ensures
        match r {
            Some(act) => global_key(old(app)@, key) == Some((final(app)@, act@)),
            None => global_key(old(app)@, key) is None && *final(app) == *old(app),
        },
        final(app)@.wf(),
{
    match key {
        Key::Char('n') => Some(Act::Skip(true)),
        Key::Char('b') => Some(Act::Skip(false)),
        Key::Char('+') | Key::Char('=') => Some(adjust_volume(app, 5)),
        Key::Char('-') | Key::Char('_') => Some(adjust_volume(app, -5)),
        Key::Tab => {
            app.focus = (app.focus + 1) % PANE_COUNT;
            if app.focus == 2 {
                app.force_speaker_poll();
            }
            Some(Act::Nothing)
        },
        Key::BackTab => {
            app.focus = (app.focus + PANE_COUNT - 1) % PANE_COUNT;
            if app.focus == 2 {
                app.force_speaker_poll();
            }
            Some(Act::Nothing)
        },
        Key::Char('q') => Some(Act::Quit),
        Key::Esc => {
            if app.focus == 3 && app.trove.fmt_for.is_some() {
                drop_format_row(app);
                return Some(Act::Nothing);
            }
            Some(Act::Quit)
        },
        _ => None,
    }
}

/// What a key does in the focused view.
pub open spec fn pane_key(
    a: AppV,
    s: SessionV,
    key: Key,
    files: Seq<Seq<char>>,
    cur: Seq<char>,
    top: Option<Seq<char>>,
) -> (AppV, SessionV, ActV) {
    match a.pane() {
        Pane::Browser => browser_key(a, s, key, files),
        Pane::Queue => queue_key(a, s, key, cur),
        Pane::Audio => {
            let (b, act) = audio_key(a, s, key, files, cur, top);
            (b, s, act)
        },
        Pane::Trove => {
            let (b, act) = trove_key(a, key);
            (b, s, act)
        },
    }
}

/// What a key does. A line of input takes all of them; of the others, some work in every
/// view, and the rest goes to the focused one.
pub open spec fn key_pressed(
    a: AppV,
    s: SessionV,
    key: Key,
    ctrl: bool,
    files: Seq<Seq<char>>,
    cur: Seq<char>,
    top: Option<Seq<char>>,
) -> (AppV, SessionV, ActV) {
    match a.input {
        Some(mode) => {
            let (b, act) = input_key(a, mode, key, ctrl);
            (b, s, act)
        },
        None => match global_key(a, key) {
            Some((b, act)) => (b, s, act),
            None => pane_key(a, s, key, files, cur, top),
        },
    }
}

/// A key. `files` are the files that the browser lists, `cur` is the path that plays, `top`
/// the first file of the library.
#[verifier::rlimit(40)]
pub fn handle_key(
    app: &mut App,
    s: &mut Session,
    key: Key,
    ctrl: bool,
    files: &Vec<String>,
    cur: &str,
    top: Option<&str>,
) -> (r: Act)
    requires
        old(app)@.wf(),
        volume_fits(old(app)@, key),
    ensures
        (final(app)@, final(s)@, r@) == key_pressed(
            old(app)@,
            old(s)@,
            key,
            ctrl,
            views(files@),
            cur@,
            opt_str(top),
        ),
        final(app)@.wf(),
{
    match app.input {
        Some(mode) => {
            return handle_input(app, mode, key, ctrl);
        },
        None => {},
    }
    match handle_global(app, key) {
        Some(act) => {
            return act;
        },
        None => {},
    }
    match app.pane() {
        Pane::Browser => handle_browser(app, s, key, files),
        Pane::Queue => handle_queue(app, s, key, cur),
        Pane::Audio => handle_audio(app, s, key, files, cur, top),
        Pane::Trove => handle_trove(app, key),
    }
}

// ---- the mouse ----

/// The place in a list that a row of the screen stands for. The first row is the border; the
/// lowest eleven are other boxes.
pub open spec fn row_index(row: u16, height: u16) -> Option<int> {
    if row < 1 || row as int >= (if height >= 11 {
        height - 11
    } else {
        0
    }) {
        None
    } else {
        Some(row - 1)
    }
}

fn index_of_row(row: u16, height: u16) -> (r: Option<usize>)
    ensures
        match r {
            Some(i) => row_index(row, height) == Some(i as int),
            None => row_index(row, height) is None,
        },
{
    let limit: u16 = if height >= 11 {
        height - 11
    } else {
        0
    };
    if row < 1 || row >= limit {
        None
    } else {
        Some(row as usize - 1)
    }
}

/// The result of the trove that a place of its list stands for: each takes two rows, and a
/// title stands above them where there is a query or a result.
pub open spec fn doc_index(t: TroveStateV, place: int) -> Option<int> {
    let off = if t.query.len() == 0 && t.docs.len() == 0 {
        0int
    } else {
        1int
    };
    if place >= off && (place - off) / 2 < t.docs.len() {
        Some((place - off) / 2)
    } else {
        None
    }
}

/// What a click does, and whether it hit: it selects, and a second one acts.
pub open spec fn clicked(
    a: AppV,
    row: u16,
    height: u16,
    double: bool,
    files: Seq<Seq<char>>,
    queued: int,
) -> (AppV, bool, ActV) {
    match row_index(row, height) {
        None => (a, false, ActV::Nothing),
        Some(i) => match a.pane() {
            Pane::Browser => if i < files.len() {
                (
                    AppV { browser_sel: i as usize, ..a },
                    true,
                    if double {
                        play_file(a.cfg, files[i])
                    } else {
                        ActV::Nothing
                    },
                )
            } else {
                (a, false, ActV::Nothing)
            },
            Pane::Queue => if i < queued {
                (
                    AppV { queue_sel: i as usize, ..a },
                    true,
                    if double {
                        ActV::PlayQueue(i as usize, true)
                    } else {
                        ActV::Nothing
                    },
                )
            } else {
                (a, false, ActV::Nothing)
            },
            Pane::Trove => match doc_index(a.trove, i) {
                Some(d) => {
                    let b = a.with_trove(TroveStateV { sel: d as usize, ..a.trove });
                    if double {
                        (format_asked(b, d as usize).0, true, format_asked(b, d as usize).1)
                    } else {
                        (b, true, ActV::Nothing)
                    }
                },
                None => (a, false, ActV::Nothing),
            },
            Pane::Audio => (a, false, ActV::Nothing),
        },
    }
}

fn click_doc(app: &mut App, place: usize, double: bool) -> (r: (bool, Act))
    requires
        old(app)@.wf(),
    ensures
        match doc_index(old(app)@.trove, place as int) {
            Some(d) => {
                let b = old(app)@.with_trove((TroveStateV { sel: d as usize, ..old(app)@.trove }));
                r.0 && (final(app)@, r.1@) == if double {
                    format_asked(b, d as usize)
                } else {
                    (b, ActV::Nothing)
                }
            },
            None => !r.0 && r.1@ == ActV::Nothing && final(app)@ == old(app)@,
        },
        final(app)@.wf(),
{
    assert(docs_view(app.trove.docs@).len() == app.trove.docs.len());
    let off: usize = if app.trove.query.as_str().is_empty() && app.trove.docs.len() == 0 {
        0
    } else {
        1
    };
    if place < off {
        return (false, Act::Nothing);
    }
    let idx: usize = (place - off) / 2;
    if idx >= app.trove.docs.len() {
        return (false, Act::Nothing);
    }
    app.trove.sel = idx;
    if double {
        return (true, trove_ask_format(app, idx));
    }
    (true, Act::Nothing)
}

/// A click on a row of the screen; `double` says whether it is the second one there.
#[verifier::rlimit(40)]
pub fn click_at(app: &mut App, row: u16, height: u16, double: bool, files: &Vec<String>, queued: usize) -> (r: (bool, Act))
    requires
        old(app)@.wf(),
    ensures
        (final(app)@, r.0, r.1@) == clicked(old(app)@, row, height, double, views(files@), queued as int),
        final(app)@.wf(),
{
    let i: usize = match index_of_row(row, height) {
        Some(i) => i,
        None => {
            return (false, Act::Nothing);
        },
    };
    assert(views(files@).len() == files.len());
    match app.pane() {
        Pane::Browser => {
            if i < files.len() {
                app.browser_sel = i;
                assert(views(files@)[i as int] == files@[i as int]@);
                if double {
                    let p = files[i].clone();
                    return (true, play_or_cast(app, p));
                }
                return (true, Act::Nothing);
            }
            (false, Act::Nothing)
        },
        Pane::Queue => {
            if i < queued {
                app.queue_sel = i;
                if double {
                    return (true, Act::PlayQueue(i, true));
                }
                return (true, Act::Nothing);
            }
            (false, Act::Nothing)
        },
        Pane::Trove => click_doc(app, i, double),
        Pane::Audio => (false, Act::Nothing),
    }
}

/// Something that the mouse did.
#[derive(Clone, Copy)]
pub enum Mouse {
    /// The wheel turned, down or up.
    Wheel(bool),
    /// A click on a row, the second one there or not.
    Click(u16, bool),
    Other,
}

/// What the mouse does, and whether anything is to be drawn anew. It does nothing where the
/// configuration switches it off.
pub open spec fn moused(
    a: AppV,
    m: Mouse,
    height: u16,
    files: Seq<Seq<char>>,
    queued: int,
) -> (AppV, bool, ActV) {
    if !a.cfg.mouse {
        (a, false, ActV::Nothing)
    } else {
        match m {
            Mouse::Wheel(down) => (scrolled_app(a, down, files.len() as int, queued), true, ActV::Nothing),
            Mouse::Click(row, double) => clicked(a, row, height, double, files, queued),
            Mouse::Other => (a, false, ActV::Nothing),
        }
    }
}

/// The mouse: the wheel scrolls the list of the focused view, a click selects in it.
pub fn handle_mouse(app: &mut App, m: Mouse, height: u16, files: &Vec<String>, queued: usize) -> (r: (bool, Act))
    requires
        old(app)@.wf(),
    ensures
        (final(app)@, r.0, r.1@) == moused(old(app)@, m, height, views(files@), queued as int),
        final(app)@.wf(),
{
    if !app.cfg.mouse {
        return (false, Act::Nothing);
    }
    match m {
        Mouse::Wheel(down) => {
            assert(views(files@).len() == files.len());
            scroll_by(app, down, files.len(), queued);
            (true, Act::Nothing)
        },
        Mouse::Click(row, double) => click_at(app, row, height, double, files, queued),
        Mouse::Other => (false, Act::Nothing),
    }
}

// ---- results ----

/// What a download tells.
pub enum DlMsg {
    /// How far a file is, as text; none where that is not known.
    Progress(String, usize, usize, Option<String>),
    /// A line of the log.
    Line(String),
    /// It is done.
    Finished,
}

/// The model of a [`DlMsg`].
#[verifier::ext_equal]
pub enum DlMsgV {
    Progress(Seq<char>, usize, usize, Option<Seq<char>>),
    Line(Seq<char>),
    Finished,
}

impl View for DlMsg {
    type V = DlMsgV;

    open spec fn view(&self) -> DlMsgV {
        match self {
            DlMsg::Progress(f, i, n, p) => DlMsgV::Progress(f@, *i, *n, opt_view(*p)),
            DlMsg::Line(l) => DlMsgV::Line(l@),
            DlMsg::Finished => DlMsgV::Finished,
        }
    }
}

/// A result of what runs in the background.
pub enum TroveEvent {
    /// A search found these, and so many in all.
    Found(Vec<Doc>, u64),
    SearchFailed(String),
    /// The search ended without a result.
    SearchLost,
    Download(DlMsg),
    /// The download ended without a word.
    DownloadLost,
    /// The formats of the result at a place.
    Formats(usize, Vec<String>),
    /// The question for formats ended without an answer.
    FormatsLost,
}

/// The model of a [`TroveEvent`].
#[verifier::ext_equal]
pub enum TroveEventV {
    Found(Seq<DocV>, u64),
    SearchFailed(Seq<char>),
    SearchLost,
    Download(DlMsgV),
    DownloadLost,
    Formats(usize, Seq<Seq<char>>),
    FormatsLost,
}

impl View for TroveEvent {
    type V = TroveEventV;

    open spec fn view(&self) -> TroveEventV {
        match self {
            TroveEvent::Found(d, n) => TroveEventV::Found(docs_view(d@), *n),
            TroveEvent::SearchFailed(e) => TroveEventV::SearchFailed(e@),
            TroveEvent::SearchLost => TroveEventV::SearchLost,
            TroveEvent::Download(m) => TroveEventV::Download(m@),
            TroveEvent::DownloadLost => TroveEventV::DownloadLost,
            TroveEvent::Formats(i, o) => TroveEventV::Formats(*i, views(o@)),
            TroveEvent::FormatsLost => TroveEventV::FormatsLost,
        }
    }
}

/// How many lines the log keeps.
pub const LOG_LINES: usize = 6;

/// The last lines of a log, as many as it keeps.
pub open spec fn log_tail(log: Seq<Seq<char>>) -> Seq<Seq<char>> {
    if log.len() > LOG_LINES {
        log.skip(log.len() - LOG_LINES)
    } else {
        log
    }
}

/// The line that shows how far a file is.
pub open spec fn progress_line(file: Seq<char>, i: usize, n: usize, pct: Option<Seq<char>>) -> Seq<char> {
    "↓ "@ + dec(i as int) + "/"@ + dec(n as int) + " "@ + file + "  "@ + (match pct {
        Some(p) => p,
        None => "  ?"@,
    })
}

/// The trove view after a word of a download. The line of a file that is under way is
/// replaced where it stands.
pub open spec fn told(t: TroveStateV, m: DlMsgV) -> TroveStateV {
    match m {
        DlMsgV::Progress(file, i, n, pct) => {
            let kept = if t.dl_prog_file == Some(file) && t.log.len() > 0 {
                t.log.drop_last()
            } else {
                t.log
            };
            TroveStateV {
                log: log_tail(kept.push(progress_line(file, i, n, pct))),
                dl_prog_file: Some(file),
                ..t
            }
        },
        DlMsgV::Line(l) => TroveStateV { log: log_tail(t.log.push(l)), dl_prog_file: None, ..t },
        DlMsgV::Finished => TroveStateV { dl_active: false, dl_prog_file: None, ..t },
    }
}

/// The state after a result. One that nothing waits for changes nothing.
pub open spec fn trove_polled(a: AppV, e: TroveEventV) -> AppV {
    let t = a.trove;
    match e {
        TroveEventV::Found(docs, total) => if t.searching {
            a.with_trove(TroveStateV { docs, total, sel: 0, searching: false, ..t }).says(
                dec(docs.len() as int) + " hits ("@ + dec(total as int) + " total)"@,
            )
        } else {
            a
        },
        TroveEventV::SearchFailed(err) => if t.searching {
            a.with_trove(TroveStateV { searching: false, ..t }).says("search failed: "@ + err)
        } else {
            a
        },
        TroveEventV::SearchLost => if t.searching {
            a.with_trove(TroveStateV { searching: false, ..t })
        } else {
            a
        },
        TroveEventV::Download(m) => if t.dl_active {
            if m is Finished {
                a.with_trove(told(t, m)).says("download finished — see trove log"@)
            } else {
                a.with_trove(told(t, m))
            }
        } else {
            a
        },
        TroveEventV::DownloadLost => if t.dl_active {
            a.with_trove(TroveStateV { dl_active: false, dl_prog_file: None, ..t })
        } else {
            a
        },
        TroveEventV::Formats(idx, opts) => if t.fmt_pending {
            a.with_trove(TroveStateV { fmt_for: Some(idx), fmt_opts: opts, fmt_pending: false, ..t })
        } else {
            a
        },
        TroveEventV::FormatsLost => if t.fmt_pending {
            a.with_trove(TroveStateV { fmt_for: None, fmt_pending: false, ..t })
        } else {
            a
        },
    }
}

fn push_log(log: &mut Vec<String>, line: String)
    ensures
        views(final(log)@) == log_tail(views(old(log)@).push(line@)),
{
    let ghost before = views(log@);
    log.push(line);
    let ghost full = views(log@);
    assert(full == before.push(line@));
    let ghost mut gone: int = 0;
    while log.len() > LOG_LINES
        invariant
            0 <= gone <= full.len(),
            views(log@) == full.skip(gone),
            gone > 0 ==> log.len() >= LOG_LINES,
            log.len() == full.len() - gone,
        decreases log.len(),
    {
        let ghost was = views(log@);
        let _ = log.remove(0);
        assert(views(log@) == was.skip(1));
        assert(full.skip(gone).skip(1) == full.skip(gone + 1));
        proof {
            gone = gone + 1;
        }
    }
    assert(full.skip(0) == full);
}

fn hear(t: &mut TroveState, m: DlMsg)
    ensures
        final(t)@ == told(old(t)@, m@),
{
    match m {
        DlMsg::Progress(file, i, n, pct) => {
            let shown = match &pct {
                Some(p) => p.as_str(),
                None => "  ?",
            };
            let head = cat4("↓ ", dec_usize(i).as_str(), "/", dec_usize(n).as_str());
            let line = cat5(head.as_str(), " ", file.as_str(), "  ", shown);
            assert(line@ == progress_line(file@, i, n, opt_view(pct)));
            if is_text(opt_as_str(&t.dl_prog_file), file.as_str()) {
                let ghost before = views(t.log@);
                let _ = t.log.pop();
                assert(before.len() > 0 ==> views(t.log@) == before.drop_last());
                assert(before.len() == 0 ==> views(t.log@) == before);
            }
            t.dl_prog_file = Some(file);
            push_log(&mut t.log, line);
        },
        DlMsg::Line(l) => {
            t.dl_prog_file = None;
            push_log(&mut t.log, l);
        },
        DlMsg::Finished => {
            t.dl_active = false;
            t.dl_prog_file = None;
        },
    }
}

/// Takes in a result of what runs in the background.
#[verifier::rlimit(40)]
pub fn poll_trove(app: &mut App, e: TroveEvent)
    requires
        old(app)@.wf(),
    ensures
        final(app)@ == trove_polled(old(app)@, e@),
        final(app)@.wf(),
{
    match e {
        TroveEvent::Found(docs, total) => {
            if app.trove.searching {
                assert(docs_view(docs@).len() == docs.len());
                let line = cat4(dec_usize(docs.len()).as_str(), " hits (", dec_u64(total).as_str(), " total)");
                app.trove.docs = docs;
                app.trove.total = total;
                app.trove.sel = 0;
                app.trove.searching = false;
                app.say(line);
            }
        },
        TroveEvent::SearchFailed(err) => {
            if app.trove.searching {
                app.trove.searching = false;
                app.say(cat2("search failed: ", err.as_str()));
            }
        },
        TroveEvent::SearchLost => {
            app.trove.searching = false;
        },
        TroveEvent::Download(m) => {
            if app.trove.dl_active {
                let done = match &m {
                    DlMsg::Finished => true,
                    _ => false,
                };
                hear(&mut app.trove, m);
                if done {
                    app.say("download finished — see trove log".to_owned());
                }
            }
        },
        TroveEvent::DownloadLost => {
            if app.trove.dl_active {
                app.trove.dl_active = false;
                app.trove.dl_prog_file = None;
            }
        },
        TroveEvent::Formats(idx, opts) => {
            if app.trove.fmt_pending {
                app.trove.fmt_for = Some(idx);
                app.trove.fmt_opts = opts;
                app.trove.fmt_pending = false;
            }
        },
        TroveEvent::FormatsLost => {
            if app.trove.fmt_pending {
                app.trove.fmt_pending = false;
                app.trove.fmt_for = None;
            }
        },
    }
}

/// The formats that are offered: those of the item, and all of them.
pub fn offered_formats(found: &Vec<String>) -> (r: Vec<String>)
    ensures
        views(r@) == views(found@).push("all"@),
{
    let mut r = copy_list(found);
    let ghost before = views(r@);
    r.push("all".to_owned());
    assert(views(r@) == before.push("all"@));
    r
}

/// The address of the search for a line of words, whose first one may be a kind.
pub open spec fn line_search(q: Seq<char>) -> Seq<char> {
    let kw = kind_and_words(None, words(q));
    search_address(archive_query(kw.0, kw.1), 10, 1)
}

/// The address of the search for a line of words.
pub fn search_line(q: &str) -> (s: String)
    ensures
        s@ == line_search(q@),
{
    let mut ws = words_of(q);
    let ghost all = views(ws@);
    assert(all.len() == ws.len());
    let mut kind: Option<String> = None;
    if ws.len() > 0 {
        assert(all[0] == ws@[0]@);
        if is_kind_token(ws[0].as_str()) {
            kind = Some(ws.remove(0));
            assert(views(ws@) == all.skip(1));
        }
    }
    let query = build_query(opt_as_str(&kind), &ws);
    search_url(query.as_str(), 10, 1)
}

/// The line of a file that a download fetched, or failed to.
pub fn fetched_line(i: usize, n: usize, name: &str, good: bool) -> (s: String)
    ensures
        s@ == "↓ "@ + dec(i as int) + "/"@ + dec(n as int) + " "@ + name@ + (if good {
            ""@
        } else {
            " FAILED"@
        }),
{
    let tail = if good {
        ""
    } else {
        " FAILED"
    };
    cat7("↓ ", dec_usize(i).as_str(), "/", dec_usize(n).as_str(), " ", name, tail)
}

/// The line of an item that a download is done with.
pub fn item_done_line(ok: usize, n: usize, ident: &str, dir: &str) -> (s: String)
    ensures
        s@ == "Done "@ + dec(ok as int) + "/"@ + dec(n as int) + " "@ + ident@ + " → "@ + dir@,
{
    let head = cat5("Done ", dec_usize(ok).as_str(), "/", dec_usize(n).as_str(), " ");
    cat4(head.as_str(), ident, " → ", dir)
}

/// The line of an item that could not be downloaded.
pub fn item_failed_line(ident: &str, err: &str) -> (s: String)
    ensures
        s@ == ident@ + ": "@ + err@,
{
    cat3(ident, ": ", err)
}

/// What came of a look at the speakers.
pub enum Polled {
    /// Nothing yet.
    Nothing,
    /// These are there; and whether the media server is.
    Seen(Vec<HeosPlayer>, bool),
    /// It ended without an answer.
    Lost,
}

/// The state after what came of a look at the speakers.
pub open spec fn seen(a: AppV, got: Polled) -> AppV {
    if a.spk_pending {
        match got {
            Polled::Nothing => a,
            Polled::Seen(roster, ok) => AppV {
                audio: AudioStateV { roster: players_view(roster@), dlna_ok: ok },
                spk_pending: false,
                ..a
            },
            Polled::Lost => AppV { spk_pending: false, ..a },
        }
    } else {
        a
    }
}

/// Takes in what came of a look at the speakers, and says whether the next one is due: where
/// none is under way, and the last is stale or one was asked for.
pub fn poll_speaker(app: &mut App, got: Polled, stale: bool) -> (look: bool)
    requires
        old(app)@.wf(),
    ensures
        ({
            let now = seen(old(app)@, got);
            &&& look == (!now.spk_pending && (stale || now.spk_force))
            &&& final(app)@ == if look {
                AppV { spk_force: false, spk_pending: true, ..now }
            } else {
                now
            }
        }),
        final(app)@.wf(),
{
    if app.spk_pending {
        match got {
            Polled::Nothing => {},
            Polled::Seen(roster, ok) => {
                app.audio.roster = roster;
                app.audio.dlna_ok = ok;
                app.spk_pending = false;
            },
            Polled::Lost => {
                app.spk_pending = false;
            },
        }
    }
    if !app.spk_pending && (stale || app.spk_force) {
        app.spk_force = false;
        app.spk_pending = true;
        return true;
    }
    false
}

/// Takes in what mpv says; none where it does not run. The volume is the configured one
/// where mpv gives none.
pub fn poll_mpv(app: &mut App, playing: Option<(&str, bool, Option<i64>)>)
    requires
        old(app)@.wf(),
    ensures
        final(app)@ == match playing {
            None => AppV { mpv_label: ""@, mpv_paused: false, ..old(app)@ },
            Some((label, paused, vol)) => AppV {
                mpv_label: label@,
                mpv_paused: paused,
                mpv_vol: match vol {
                    Some(v) => v,
                    None => old(app).cfg.default_volume as i64,
                },
                ..old(app)@
            },
        },
        final(app)@.wf(),
{
    match playing {
        None => {
            app.mpv_label = "".to_owned();
            app.mpv_paused = false;
        },
        Some((label, paused, vol)) => {
            app.mpv_label = label.to_owned();
            app.mpv_paused = paused;
            app.mpv_vol = match vol {
                Some(v) => v,
                None => app.cfg.default_volume as i64,
            };
        },
    }
}

// ---- speakers ----

/// Whether a player has a name that holds another, case aside.
pub open spec fn named_like(p: PlayerV, name: Seq<char>) -> bool {
    has(lower(p.name), lower(name))
}

/// The place of the first player whose name holds another.
pub open spec fn place_of(roster: Seq<PlayerV>, name: Seq<char>) -> Option<int>
    decreases roster.len(),
{
    if roster.len() == 0 {
        None
    } else if named_like(roster[0], name) {
        Some(0)
    } else {
        match place_of(roster.skip(1), name) {
            Some(i) => Some(i + 1),
            None => None,
        }
    }
}

fn find_player(roster: &Vec<HeosPlayer>, name: &str) -> (r: Option<usize>)
    ensures
        match r {
            Some(i) => i < roster.len() && place_of(players_view(roster@), name@) == Some(i as int),
            None => place_of(players_view(roster@), name@) is None,
        },
{
    let low = lowered(name);
    let ghost all = players_view(roster@);
    assert(all.skip(0) == all);
    for i in 0..roster.len()
        invariant
            all == players_view(roster@),
            low@ == lower(name@),
            place_of(all, name@) == match place_of(all.skip(i as int), name@) {
                Some(j) => Some(i + j),
                None => None,
            },
    {
        assert(all.skip(i as int)[0] == roster@[i as int]@);
        assert(all.skip(i as int).skip(1) == all.skip(i + 1));
        if contains(lowered(roster[i].name.as_str()).as_str(), low.as_str()) {
            return Some(i);
        }
    }
    None
}

/// The roster with what was just commanded of the configured speaker.
pub open spec fn patched(a: AppV, state: Option<Seq<char>>, vol: Option<i32>) -> AppV {
    match place_of(a.audio.roster, a.cfg.audio_speaker) {
        Some(i) => {
            let p = a.audio.roster[i];
            let q = PlayerV {
                state: if state is Some {
                    state
                } else {
                    p.state
                },
                volume: if vol is Some {
                    vol
                } else {
                    p.volume
                },
                ..p
            };
            AppV { audio: AudioStateV { roster: a.audio.roster.update(i, q), ..a.audio }, ..a }
        },
        None => a,
    }
}

/// Shows at once what was commanded of the configured speaker.
pub fn patch_roster(app: &mut App, state: Option<&str>, vol: Option<i32>)
    ensures
        final(app)@ == patched(old(app)@, opt_str(state), vol),
{
    match find_player(&app.audio.roster, app.cfg.audio_speaker.as_str()) {
        Some(i) => {
            let mut p = app.audio.roster[i].copy();
            match state {
                Some(s) => {
                    p.state = Some(s.to_owned());
                },
                None => {},
            }
            if vol.is_some() {
                p.volume = vol;
            }
            let ghost q = p@;
            app.audio.roster.set(i, p);
            assert(players_view(app.audio.roster@) == players_view(old(app).audio.roster@).update(i as int, q));
        },
        None => {},
    }
}

/// The entry of the configured speaker, or else the first one.
pub open spec fn entry_shown(a: AppV) -> Option<PlayerV> {
    match place_of(a.audio.roster, a.cfg.audio_speaker) {
        Some(i) => Some(a.audio.roster[i]),
        None => if a.audio.roster.len() > 0 {
            Some(a.audio.roster[0])
        } else {
            None
        },
    }
}

/// A player, if there is one.
pub open spec fn opt_player(p: Option<HeosPlayer>) -> Option<PlayerV> {
    match p {
        Some(p) => Some(p@),
        None => None,
    }
}

/// The entry of the configured speaker, or else the first one.
pub fn speaker_entry(app: &App) -> (r: Option<HeosPlayer>)
    ensures
        opt_player(r) == entry_shown(app@),
{
    assert(players_view(app.audio.roster@).len() == app.audio.roster.len());
    match find_player(&app.audio.roster, app.cfg.audio_speaker.as_str()) {
        Some(i) => {
            assert(players_view(app.audio.roster@)[i as int] == app.audio.roster@[i as int]@);
            Some(app.audio.roster[i].copy())
        },
        None => {
            if app.audio.roster.len() > 0 {
                assert(players_view(app.audio.roster@)[0] == app.audio.roster@[0]@);
                Some(app.audio.roster[0].copy())
            } else {
                None
            }
        },
    }
}

/// The name of the speaker after the configured one, of those that were seen.
pub open spec fn speaker_after(roster: Seq<PlayerV>, name: Seq<char>) -> Seq<char> {
    let cur = match place_of(roster, name) {
        Some(i) => i,
        None => 0,
    };
    roster[(cur + 1) % (roster.len() as int)].name
}

fn next_speaker(roster: &Vec<HeosPlayer>, name: &str) -> (r: String)
    requires
        roster.len() > 0,
    ensures
        r@ == speaker_after(players_view(roster@), name@),
{
    let cur: usize = match find_player(roster, name) {
        Some(i) => i,
        None => 0,
    };
    let i: usize = if cur + 1 < roster.len() {
        cur + 1
    } else {
        0
    };
    proof {
        let n = roster.len() as int;
        assert(players_view(roster@).len() == n);
        if cur + 1 < n {
            vstd::arithmetic::div_mod::lemma_small_mod((cur + 1) as nat, n as nat);
        } else {
            vstd::arithmetic::div_mod::lemma_mod_self_0(n);
        }
    }
    assert(players_view(roster@)[i as int] == roster@[i as int]@);
    roster[i].name.clone()
}

/// What the key for the next speaker does, once the speakers were looked for.
pub open spec fn speaker_cycled(a: AppV) -> (AppV, ActV) {
    if a.audio.roster.len() == 0 {
        (a.says("no speakers found"@), ActV::Nothing)
    } else {
        let next = speaker_after(a.audio.roster, a.cfg.audio_speaker);
        (
            AppV { cfg: ConfigV { audio_speaker: next, ..a.cfg }, ..a }.says("speaker → "@ + next),
            ActV::SaveConfig,
        )
    }
}

/// Takes the next speaker.
pub fn cycle_speaker(app: &mut App) -> (r: Act)
    requires
        old(app)@.wf(),
    ensures
        (final(app)@, r@) == speaker_cycled(old(app)@),
        final(app)@.wf(),
{
    assert(players_view(app.audio.roster@).len() == app.audio.roster.len());
    if app.audio.roster.len() == 0 {
        app.say("no speakers found".to_owned());
        return Act::Nothing;
    }
    let next = next_speaker(&app.audio.roster, app.cfg.audio_speaker.as_str());
    app.cfg.audio_speaker = next.clone();
    app.say(cat2("speaker → ", next.as_str()));
    Act::SaveConfig
}

/// Shows what a look at the speakers found.
pub fn show_refresh(app: &mut App)
    ensures
        final(app)@ == old(app)@.says(
            dec(old(app)@.audio.roster.len() as int) + " speaker(s), dlna "@ + (if old(app)@.audio.dlna_ok {
                "ok"@
            } else {
                "down"@
            }),
        ),
{
    assert(players_view(app.audio.roster@).len() == app.audio.roster.len());
    let state = if app.audio.dlna_ok {
        "ok"
    } else {
        "down"
    };
    app.say(cat3(dec_usize(app.audio.roster.len()).as_str(), " speaker(s), dlna ", state));
}

/// The volume that the fields of a message give; the last that is a number counts.
pub open spec fn level_in_fields(level: int, kvs: Seq<Seq<char>>) -> int
    decreases kvs.len(),
{
    if kvs.len() == 0 {
        level
    } else {
        let before = level_in_fields(level, kvs.drop_last());
        match crate::text::cut_first(kvs.last(), '=') {
            Some((k, v)) => if k == "level"@ {
                match int_in(v, i32::MIN as int, i32::MAX as int) {
                    Some(n) => n,
                    None => before,
                }
            } else {
                before
            },
            None => before,
        }
    }
}

/// The volume that replies give; 20 where they give none.
pub open spec fn level_in(objs: Seq<JsonV>) -> int
    decreases objs.len(),
{
    if objs.len() == 0 {
        20
    } else {
        level_in_fields(level_in(objs.drop_last()), fields(message(objs.last())))
    }
}

fn read_fields(level: i32, kvs: &Vec<String>) -> (r: i32)
    ensures
        r == level_in_fields(level as int, views(kvs@)),
{
    let ghost all = views(kvs@);
    let mut r: i32 = level;
    assert(all.take(0) == Seq::<Seq<char>>::empty());
    for i in 0..kvs.len()
        invariant
            all == views(kvs@),
            r == level_in_fields(level as int, all.take(i as int)),
    {
        assert(all.take(i + 1).drop_last() == all.take(i as int));
        assert(all.take(i + 1).last() == kvs@[i as int]@);
        match split_once(kvs[i].as_str(), '=') {
            Some((k, v)) => {
                if same(k.as_str(), "level") {
                    match parse_i32(v.as_str()) {
                        Some(n) => {
                            r = n;
                        },
                        None => {},
                    }
                }
            },
            None => {},
        }
    }
    assert(all.take(all.len() as int) == all);
    r
}

/// The volume that replies give; 20 where they give none.
pub fn speaker_level(objs: &Vec<Json>) -> (r: i32)
    ensures
        r == level_in(jsons(objs@)),
{
    let ghost all = jsons(objs@);
    let mut r: i32 = 20;
    assert(all.take(0) == Seq::<JsonV>::empty());
    for i in 0..objs.len()
        invariant
            all == jsons(objs@),
            r == level_in(all.take(i as int)),
    {
        assert(all.take(i + 1).drop_last() == all.take(i as int));
        assert(all.take(i + 1).last() == objs@[i as int]@);
        let kvs = split_at_char(heos::message_of(&objs[i]).as_str(), '&');
        r = read_fields(r, &kvs);
    }
    assert(all.take(all.len() as int) == all);
    r
}

/// The request for the speaker's volume.
pub fn level_uri(pid: i64) -> (s: String)
    ensures
        s@ == "heos://player/get_volume?pid="@ + dec(pid as int),
{
    cat2("heos://player/get_volume?pid=", dec_i64(pid).as_str())
}

/// The request whether the speaker is mute.
pub fn mute_uri(pid: i64) -> (s: String)
    ensures
        s@ == "heos://player/get_mute?pid="@ + dec(pid as int),
{
    cat2("heos://player/get_mute?pid=", dec_i64(pid).as_str())
}

/// The speaker's volume, up or down and from 0 to 100.
pub fn next_level(level: i32, delta: i32) -> (r: i32)
    requires
        i32::MIN <= level + delta <= i32::MAX,
    ensures
        r == clamped(level + delta, 0, 100),
{
    let sum: i32 = level + delta;
    if sum < 0 {
        0
    } else if sum > 100 {
        100
    } else {
        sum
    }
}

/// Shows what came of setting the speaker's volume; no speaker has no name.
pub fn volume_set(app: &mut App, name: Option<&str>, level: i32, ok: bool)
    ensures
        final(app)@ == match opt_str(name) {
            None => old(app)@.says("no speaker found"@),
            Some(n) => if ok {
                patched(old(app)@, None, Some(level)).says(n + " volume → "@ + dec(level as int) + "%"@)
            } else {
                old(app)@.says("volume failed"@)
            },
        },
{
    match name {
        None => {
            app.say("no speaker found".to_owned());
        },
        Some(n) => {
            if ok {
                patch_roster(app, None, Some(level));
                app.say(cat4(n, " volume → ", dec_i64(level as i64).as_str(), "%"));
            } else {
                app.say("volume failed".to_owned());
            }
        },
    }
}

/// Whether replies say that the speaker is mute.
pub open spec fn says_mute(objs: Seq<JsonV>) -> bool {
    exists|i: int| 0 <= i < objs.len() && has(message(#[trigger] objs[i]), "state=on"@)
}

/// Whether replies say that the speaker is mute.
pub fn is_muted(objs: &Vec<Json>) -> (b: bool)
    ensures
        b == says_mute(jsons(objs@)),
{
    let ghost all = jsons(objs@);
    for i in 0..objs.len()
        invariant
            all == jsons(objs@),
            forall|j: int| 0 <= j < i ==> !(has(message(#[trigger] all[j]), "state=on"@)),
    {
        assert(all[i as int] == objs@[i as int]@);
        if contains(heos::message_of(&objs[i]).as_str(), "state=on") {
            return true;
        }
    }
    assert(all.len() == objs.len());
    false
}

/// Shows what came of muting; no speaker has no name.
pub fn mute_set(app: &mut App, name: Option<&str>, on: bool, ok: bool)
    ensures
        final(app)@ == match opt_str(name) {
            None => old(app)@.says("no speaker found"@),
            Some(n) => if ok {
                AppV { spk_force: true, ..old(app)@ }.says(n + " mute → "@ + (if on {
                    "on"@
                } else {
                    "off"@
                }))
            } else {
                old(app)@
            },
        },
{
    match name {
        None => {
            app.say("no speaker found".to_owned());
        },
        Some(n) => {
            if ok {
                let state = if on {
                    "on"
                } else {
                    "off"
                };
                app.say(cat3(n, " mute → ", state));
                app.force_speaker_poll();
            }
        },
    }
}

/// Shows what came of pausing the speaker or letting it go on; no speaker has no name.
pub fn pause_toggled(app: &mut App, name: Option<&str>, to: &str)
    ensures
        final(app)@ == match opt_str(name) {
            None => old(app)@.says("no speaker found"@),
            Some(n) => patched(old(app)@, Some(to@), None).says(n + " → "@ + to@),
        },
{
    match name {
        None => {
            app.say("no speaker found".to_owned());
        },
        Some(n) => {
            patch_roster(app, Some(to), None);
            app.say(cat3(n, " → ", to));
        },
    }
}

/// Announces a cast; no speaker has no name, and is a reason to give up.
pub fn cast_path(app: &mut App, path: &str, name: Option<&str>) -> (go_on: bool)
    ensures
        go_on == (name is Some),
        final(app)@ == match opt_str(name) {
            None => old(app)@.says("no speaker found — try v (refresh)"@),
            Some(n) => old(app)@.says("casting "@ + base_text(path@) + " → "@ + n + "…"@),
        },
{
    match name {
        None => {
            app.say("no speaker found — try v (refresh)".to_owned());
            false
        },
        Some(n) => {
            app.say(cat5("casting ", path_name(path).as_str(), " → ", n, "…"));
            true
        },
    }
}

/// Shows what came of a cast.
pub fn cast_done(app: &mut App, path: &str, name: &str, err: Option<&str>)
    ensures
        final(app)@ == match opt_str(err) {
            None => patched(old(app)@, Some("play"@), None).says("▶ "@ + base_text(path@) + " on "@ + name@),
            Some(e) => old(app)@.says("cast failed: "@ + e),
        },
{
    match err {
        None => {
            patch_roster(app, Some("play"), None);
            app.say(cat4("▶ ", path_name(path).as_str(), " on ", name));
        },
        Some(e) => {
            app.say(cat2("cast failed: ", e));
        },
    }
}

// ---- the player here ----

/// Turns shuffling on or off; `cur` is whether it is on.
pub fn toggle_shuffle(app: &mut App, cur: bool) -> (j: Json)
    ensures
        final(app)@ == old(app)@.says("shuffle "@ + (if cur {
            "off"@
        } else {
            "on"@
        })),
        j@ == mpv3("set_property"@, "shuffle"@, JsonV::Bool(!cur)),
{
    let state = if cur {
        "off"
    } else {
        "on"
    };
    app.say(cat2("shuffle ", state));
    set_bool("shuffle", !cur)
}

/// Whether a loop property of mpv says that it loops.
pub open spec fn loops(v: Option<Seq<char>>) -> bool {
    v == Some("inf"@) || v == Some("yes"@)
}

/// What is repeated: everything, the track, or nothing.
pub open spec fn repeat_now(playlist: Option<Seq<char>>, file: Option<Seq<char>>) -> Seq<char> {
    if loops(playlist) {
        "all"@
    } else if loops(file) {
        "track"@
    } else {
        "off"@
    }
}

/// What is repeated after the key for it.
pub open spec fn repeat_after(cur: Seq<char>) -> Seq<char> {
    if cur == "off"@ {
        "all"@
    } else if cur == "all"@ {
        "track"@
    } else {
        "off"@
    }
}

/// The value of a loop property.
pub open spec fn loop_value(on: bool) -> Seq<char> {
    if on {
        "inf"@
    } else {
        "no"@
    }
}

/// Repeats everything, then the track, then nothing. The two properties are those of mpv.
pub fn cycle_repeat(app: &mut App, playlist: Option<&str>, file: Option<&str>) -> (r: (Json, Json))
    ensures
        ({
            let next = repeat_after(repeat_now(opt_str(playlist), opt_str(file)));
            &&& final(app)@ == old(app)@.says("repeat "@ + next)
            &&& r.0@ == mpv3("set_property"@, "loop-playlist"@, JsonV::Str(loop_value(next == "all"@)))
            &&& r.1@ == mpv3("set_property"@, "loop-file"@, JsonV::Str(loop_value(next == "track"@)))
        }),
{
    proof {
        lemma_repeat_words();
    }
    let next = if is_text(playlist, "inf") || is_text(playlist, "yes") {
        "track"
    } else if is_text(file, "inf") || is_text(file, "yes") {
        "off"
    } else {
        "all"
    };
    app.say(cat2("repeat ", next));
    let whole = if same(next, "all") {
        "inf"
    } else {
        "no"
    };
    let one = if same(next, "track") {
        "inf"
    } else {
        "no"
    };
    (set_text("loop-playlist", whole), set_text("loop-file", one))
}

proof fn lemma_repeat_words()
    ensures
        "off"@ != "all"@,
        "all"@ != "track"@,
        "off"@ != "track"@,
        "inf"@ != "no"@,
{
    reveal_strlit("off");
    reveal_strlit("all");
    reveal_strlit("track");
    reveal_strlit("inf");
    reveal_strlit("no");
    assert("off"@[0] == 'o' && "all"@[0] == 'a' && "track"@[0] == 't');
    assert("inf"@[0] == 'i' && "no"@[0] == 'n');
}

// ---- playlists ----

/// Shows what came of saving a playlist.
pub fn list_saved(app: &mut App, name: &str, ok: bool)
    ensures
        final(app)@ == old(app)@.says(if ok {
            "Saved playlist: "@ + name@
        } else {
            "save failed"@
        }),
{
    if ok {
        app.say(cat2("Saved playlist: ", name));
    } else {
        app.say("save failed".to_owned());
    }
}

/// Shows what came of removing a playlist.
pub fn list_removed(app: &mut App, name: &str, gone: bool)
    ensures
        final(app)@ == old(app)@.says(if gone {
            "Deleted playlist: "@ + name@
        } else {
            "Playlist not found: "@ + name@
        }),
{
    if gone {
        app.say(cat2("Deleted playlist: ", name));
    } else {
        app.say(cat2("Playlist not found: ", name));
    }
}

/// Puts the tracks of a playlist into the queue and plays it from the first; one without
/// tracks was not found. `asked` is the name that was asked for.
pub fn list_loaded(app: &mut App, s: &mut Session, asked: &str, tracks: Vec<QueueItem>) -> (play: bool)
    ensures
        play == (tracks.len() > 0),
        final(s)@ == if play {
            with_items(old(s)@, items_view(tracks@))
        } else {
            old(s)@
        },
        final(app)@ == if play {
            old(app)@
        } else {
            old(app)@.says("Playlist not found: "@ + asked@)
        },
{
    if tracks.len() == 0 {
        app.say(cat2("Playlist not found: ", asked));
        return false;
    }
    let _ = queue::replace(s, tracks);
    true
}

/// Shows that the queue plays, or a playlist by its name.
pub fn playing_shown(app: &mut App, list: Option<&str>)
    ensures
        final(app)@ == old(app)@.says(
            match opt_str(list) {
                Some(n) => "Playing playlist: "@ + n,
                None => "playing from queue"@,
            },
        ),
{
    match list {
        Some(n) => {
            app.say(cat2("Playing playlist: ", n));
        },
        None => {
            app.say("playing from queue".to_owned());
        },
    }
}

// ---- laws ----

/// Tab and back-tab undo each other.
pub proof fn law_tab_back(focus: usize)
    requires
        focus < PANE_COUNT,
    ensures
        focus_before(focus_after(focus)) == focus,
        focus_after(focus_before(focus)) == focus,
        focus_after(focus) < PANE_COUNT,
{
}

/// Tab comes round: each view is reached, and four steps lead back.
pub proof fn law_tab_cycles(focus: usize)
    requires
        focus < PANE_COUNT,
    ensures
        focus_after(focus_after(focus_after(focus_after(focus)))) == focus,
        focus_after(focus) != focus,
        focus_after(focus_after(focus)) != focus,
        focus_after(focus_after(focus_after(focus))) != focus,
{
}

/// Whichever way the audio view is entered, the speakers are looked at.
pub proof fn law_audio_entered_looks(a: AppV, key: Key)
    requires
        key == Key::Tab || key == Key::BackTab,
    ensures
        match global_key(a, key) {
            Some((b, _)) => b.pane() == Pane::Audio ==> b.spk_force,
            None => false,
        },
{
}

/// A double click acts like a click with Enter behind it.
pub proof fn law_double_click_is_enter(
    a: AppV,
    s: SessionV,
    row: u16,
    height: u16,
    files: Seq<Seq<char>>,
    cur: Seq<char>,
)
    requires
        files.len() <= usize::MAX,
        s.items.len() <= usize::MAX,
        a.trove.docs.len() <= usize::MAX,
        clicked(a, row, height, false, files, s.items.len() as int).1,
    ensures
        ({
            let one = clicked(a, row, height, false, files, s.items.len() as int).0;
            let two = clicked(a, row, height, true, files, s.items.len() as int);
            match a.pane() {
                Pane::Browser => browser_key(one, s, Key::Enter, files) == (two.0, s, two.2),
                Pane::Queue => queue_key(one, s, Key::Enter, cur) == (two.0, s, two.2),
                Pane::Trove => trove_key(one, Key::Enter) == (two.0, two.2),
                Pane::Audio => false,
            }
        }),
{
}

/// The key for repeating comes round after three presses, whatever was on at first; and what
/// it sets is what mpv then says of itself.
pub proof fn law_repeat_cycles(playlist: Option<Seq<char>>, file: Option<Seq<char>>)
    ensures
        ({
            let cur = repeat_now(playlist, file);
            &&& repeat_after(repeat_after(repeat_after(cur))) == cur
            &&& repeat_after(cur) != cur
            &&& ({
                let next = repeat_after(cur);
                repeat_now(Some(loop_value(next == "all"@)), Some(loop_value(next == "track"@))) == next
            })
        }),
{
    lemma_repeat_words();
    reveal_strlit("yes");
    reveal_strlit("no");
    assert("yes"@[0] == 'y' && "no"@[0] == 'n');
}

/// The key for the session's format goes through the formats in their order and comes round.
pub proof fn law_formats_cycle(i: int)
    requires
        0 <= i < session_formats().len(),
    ensures
        next_format(session_formats()[i]) == session_formats()[(i + 1) % 7],
{
    reveal_strlit("mp3");
    reveal_strlit("flac");
    reveal_strlit("ogg");
    reveal_strlit("wav");
    reveal_strlit("opus");
    reveal_strlit("m4a");
    reveal_strlit("all");
    assert("mp3"@[1] == 'p' && "m4a"@[1] == '4' && "mp3"@[0] == 'm' && "m4a"@[0] == 'm');
    assert("flac"@[0] == 'f' && "ogg"@[0] == 'o' && "ogg"@[1] == 'g' && "wav"@[0] == 'w');
    assert("opus"@[0] == 'o' && "opus"@[1] == 'p' && "all"@[0] == 'a');
}

/// A selection never leaves its list: where the list has entries, moving ends inside it.
pub proof fn law_selection_stays(sel: usize, n: int, down: bool)
    requires
        0 < n <= usize::MAX,
    ensures
        stepped_down(sel, n) < n,
        scrolled(sel, n, down) < n,
        sel < n ==> stepped_up(sel) < n,
{
}

/// The log never has more than six lines after a word of a download, and the newest line
/// is the last.
pub proof fn law_log_bounded(t: TroveStateV, m: DlMsgV)
    requires
        !(m is Finished),
    ensures
        told(t, m).log.len() <= LOG_LINES,
        told(t, m).log.len() > 0,
        m matches DlMsgV::Line(l) ==> told(t, m).log.last() == l,
        m matches DlMsgV::Progress(f, i, n, p) ==> told(t, m).log.last() == progress_line(f, i, n, p),
{
}

/// The progress of one file takes one line: a second word of it replaces the first.
pub proof fn law_progress_in_place(
    t: TroveStateV,
    file: Seq<char>,
    i: usize,
    n: usize,
    before: Option<Seq<char>>,
    after: Option<Seq<char>>,
)
    requires
        t.log.len() <= LOG_LINES,
        t.dl_prog_file != Some(file),
    ensures
        told(told(t, DlMsgV::Progress(file, i, n, before)), DlMsgV::Progress(file, i, n, after)).log == told(
            t,
            DlMsgV::Progress(file, i, n, after),
        ).log,
{
    let one = told(t, DlMsgV::Progress(file, i, n, before));
    let two = told(one, DlMsgV::Progress(file, i, n, after));
    let other = told(t, DlMsgV::Progress(file, i, n, after));
    assert(two.log =~= other.log);
}

/// Esc takes back an open format row before it quits: the first one closes the row, the next
/// one quits.
pub proof fn law_esc_closes_row_first(a: AppV)
    requires
        a.pane() == Pane::Trove,
        a.trove.fmt_for is Some,
    ensures
        global_key(a, Key::Esc) matches Some((b, act)) && act == ActV::Nothing && b.trove.fmt_for is None && global_key(
            b,
            Key::Esc,
        ) == Some((b, ActV::Quit)),
{
}

/// While a line of input is open, no key quits, and Esc gives the line up.
pub proof fn law_input_takes_all(
    a: AppV,
    s: SessionV,
    key: Key,
    ctrl: bool,
    files: Seq<Seq<char>>,
    cur: Seq<char>,
    top: Option<Seq<char>>,
)
    requires
        a.input is Some,
    ensures
        !(key_pressed(a, s, key, ctrl, files, cur, top).2 is Quit),
        key_pressed(a, s, key, ctrl, files, cur, top).1 == s,
        key_pressed(a, s, Key::Esc, ctrl, files, cur, top).0.input is None,
        key_pressed(a, s, Key::Esc, ctrl, files, cur, top).2 == ActV::Nothing,
{
}

/// What is typed and taken back leaves the line as it was.
pub proof fn law_type_and_delete(a: AppV, mode: InputMode, c: char)
    requires
        a.input == Some(mode),
    ensures
        input_key(input_key(a, mode, Key::Char(c), false).0, mode, Key::Backspace, false).0 == a,
{
    let b = input_key(a, mode, Key::Char(c), false).0;
    assert(b.input_buf.drop_last() =~= a.input_buf);
    assert(input_key(b, mode, Key::Backspace, false).0 =~= a);
}

/// One download runs at a time: while one does, no key starts another.
pub proof fn law_one_download(a: AppV, key: Key)
    requires
        a.trove.dl_active,
    ensures
        !(trove_key(a, key).1 is Download),
        trove_key(a, key).0.trove.dl_active,
{
}

/// The volume that is set here stays between 0 and 150, the speaker's between 0 and 100.
pub proof fn law_volume_in_range(a: AppV, delta: i64, level: int)
    ensures
        !a.cfg.to_speaker() ==> 0 <= volume_changed(a, delta).0.mpv_vol <= 150,
        0 <= clamped(level + delta, 0, 100) <= 100,
{
}

/// The key for the output comes back to what it was after two presses.
pub proof fn law_output_twice(c: ConfigV)
    requires
        c.audio_output == "local"@ || c.audio_output == "heos"@,
    ensures
        other_output((ConfigV { audio_output: other_output(c), ..c })) == c.audio_output,
{
    reveal_strlit("local");
    reveal_strlit("heos");
    assert("local"@.len() == 5 && "heos"@.len() == 4);
}

/// The keys that work in every view: the next and the previous track, the volume by five up or
/// down, the views in their cycle, and the end. A line of input takes them all as letters.
pub proof fn law_keys_of_every_view(a: AppV, s: SessionV, files: Seq<Seq<char>>, cur: Seq<char>, top: Option<Seq<char>>)
    requires
        a.input is None,
        a.focus < 4,
        0 <= a.mpv_vol <= 150,
    ensures
        key_pressed(a, s, Key::Char('n'), false, files, cur, top) == (a, s, ActV::Skip(true)),
        key_pressed(a, s, Key::Char('b'), false, files, cur, top) == (a, s, ActV::Skip(false)),
        key_pressed(a, s, Key::Char('q'), false, files, cur, top) == (a, s, ActV::Quit),
        a.cfg.to_speaker() ==> key_pressed(a, s, Key::Char('+'), false, files, cur, top).2 == ActV::Volume(5) && key_pressed(
            a,
            s,
            Key::Char('-'),
            false,
            files,
            cur,
            top,
        ).2 == ActV::Volume(-5i64),
        !a.cfg.to_speaker() ==> {
            let up = if a.mpv_vol + 5 > 150 {
                150
            } else {
                a.mpv_vol + 5
            };
            let down = if a.mpv_vol < 5 {
                0
            } else {
                a.mpv_vol - 5
            };
            &&& key_pressed(a, s, Key::Char('+'), false, files, cur, top).0.mpv_vol == up
            &&& key_pressed(a, s, Key::Char('+'), false, files, cur, top).2 == ActV::Mpv(
                JsonV::Arr(seq![JsonV::Str("set_property"@), JsonV::Str("volume"@), int_v(up)]),
            )
            &&& key_pressed(a, s, Key::Char('-'), false, files, cur, top).0.mpv_vol == down
            &&& key_pressed(a, s, Key::Char('-'), false, files, cur, top).2 == ActV::Mpv(
                JsonV::Arr(seq![JsonV::Str("set_property"@), JsonV::Str("volume"@), int_v(down)]),
            )
        },
        ({
            let b = key_pressed(a, s, Key::Tab, false, files, cur, top).0;
            match a.pane() {
                Pane::Browser => b.pane() == Pane::Queue,
                Pane::Queue => b.pane() == Pane::Audio,
                Pane::Audio => b.pane() == Pane::Trove,
                Pane::Trove => b.pane() == Pane::Browser,
            }
        }),
{
}

/// What the keys do in the browser, to the file that is selected there: Enter plays it, on the
/// speaker where that is the output; `o` plays it here and `c` casts it in any case; `a` puts it
/// behind the queue, which is stored.
pub proof fn law_browser_keys(a: AppV, s: SessionV, files: Seq<Seq<char>>)
    requires
        a.browser_sel < files.len() <= usize::MAX,
    ensures
        ({
            let f = files[a.browser_sel as int];
            &&& browser_key(a, s, Key::Enter, files) == (
                a,
                s,
                if a.cfg.audio_output == "heos"@ {
                    ActV::Cast(f)
                } else {
                    ActV::PlayFile(f)
                },
            )
            &&& browser_key(a, s, Key::Char('o'), files) == (a, s, ActV::PlayFile(f))
            &&& browser_key(a, s, Key::Char('c'), files) == (a, s, ActV::Cast(f))
            &&& browser_key(a, s, Key::Char('a'), files).1.items.len() == s.items.len() + 1
            &&& browser_key(a, s, Key::Char('a'), files).1.items.last().path == f
            &&& browser_key(a, s, Key::Char('a'), files).1.items.drop_last() == s.items
            &&& browser_key(a, s, Key::Char('a'), files).2 == ActV::Steps(seq![StepV::Save])
            &&& browser_key(a, s, Key::Down, files).0.browser_sel == if a.browser_sel + 1 < files.len() {
                a.browser_sel + 1
            } else {
                a.browser_sel as int
            }
            &&& browser_key(a, s, Key::Up, files).0.browser_sel == if a.browser_sel > 0 {
                a.browser_sel - 1
            } else {
                0
            }
            &&& browser_key(a, s, Key::Char('/'), files).0.input == Some(InputMode::Filter)
            &&& browser_key(a, s, Key::Char('S'), files).0.input == Some(InputMode::SavePl)
            &&& browser_key(a, s, Key::Char('L'), files).0.input == Some(InputMode::LoadPl)
            &&& browser_key(a, s, Key::Char('R'), files).0.input == Some(InputMode::RmPl)
        }),
        a.input is None && a.pane() == Pane::Browser ==> key_pressed(a, s, Key::Enter, false, files, ""@, None) == browser_key(
            a,
            s,
            Key::Enter,
            files,
        ),
{
    assert(s.items.push(browsed_item(files[a.browser_sel as int])).drop_last() =~= s.items);
}

/// What the keys do in the queue, to the track that is selected there: Enter plays from it, `d`
/// takes it out and leaves the others, `c` takes out all; what changes is stored.
pub proof fn law_queue_keys(a: AppV, s: SessionV, cur: Seq<char>)
    requires
        a.queue_sel < s.items.len() <= usize::MAX,
    ensures
        queue_key(a, s, Key::Enter, cur) == (a, s, ActV::PlayQueue(a.queue_sel, true)),
        queue_key(a, s, Key::Char('d'), cur).1.items == s.items.remove(a.queue_sel as int),
        queue_key(a, s, Key::Char('d'), cur).2 matches ActV::Steps(v) && v.len() > 0 && v[0] == StepV::Save,
        queue_key(a, s, Key::Char('c'), cur).1.items.len() == 0,
        queue_key(a, s, Key::Char('c'), cur).2 matches ActV::Steps(v) && v.len() > 0 && v[0] == StepV::Save,
        queue_key(a, s, Key::Down, cur).0.queue_sel == if a.queue_sel + 1 < s.items.len() {
            a.queue_sel + 1
        } else {
            a.queue_sel as int
        },
        queue_key(a, s, Key::Up, cur).0.queue_sel == if a.queue_sel > 0 {
            a.queue_sel - 1
        } else {
            0
        },
        queue_key(a, s, Key::Down, cur).1 == s && queue_key(a, s, Key::Up, cur).1 == s,
{
}

/// What the keys do in the audio view: `o` changes the output to the other one and stores that, `p`
/// pauses where the sound is, and the others ask for what they say.
pub proof fn law_audio_keys(a: AppV, s: SessionV, files: Seq<Seq<char>>, cur: Seq<char>, top: Option<Seq<char>>)
    ensures
        ({
            let o = audio_key(a, s, Key::Char('o'), files, cur, top);
            &&& o.1 == ActV::SaveConfig
            &&& a.cfg.audio_output == "heos"@ ==> o.0.cfg == (ConfigV { audio_output: "local"@, ..a.cfg })
            &&& a.cfg.audio_output != "heos"@ ==> o.0.cfg == (ConfigV { audio_output: "heos"@, ..a.cfg })
        }),
        a.cfg.audio_output == "heos"@ ==> audio_key(a, s, Key::Char('p'), files, cur, top) == (a, ActV::TogglePause),
        a.cfg.audio_output != "heos"@ ==> audio_key(a, s, Key::Char('p'), files, cur, top) == (
            a,
            ActV::Mpv(JsonV::Arr(seq![JsonV::Str("cycle"@), JsonV::Str("pause"@)])),
        ),
        audio_key(a, s, Key::Char('S'), files, cur, top) == (a, ActV::Shuffle),
        audio_key(a, s, Key::Char('r'), files, cur, top) == (a, ActV::Repeat),
        audio_key(a, s, Key::Char('m'), files, cur, top) == (a, ActV::Mute),
        audio_key(a, s, Key::Char('s'), files, cur, top).1 == ActV::CycleSpeaker,
        audio_key(a, s, Key::Char('v'), files, cur, top).1 == ActV::Refresh,
        a.browser_sel < files.len() ==> audio_key(a, s, Key::Char('t'), files, cur, top) == (
            a,
            ActV::Cast(files[a.browser_sel as int]),
        ),
        files.len() == 0 && s.items.len() > 0 ==> audio_key(a, s, Key::Char('t'), files, cur, top) == (
            a,
            ActV::Cast(s.items[0].path),
        ),
{
}

/// What the keys do in the trove view: a digit downloads the result at that place, counted from
/// one, in the format of the session; `a` downloads all that are listed; Enter asks which formats
/// the selected one has, and then a digit downloads it in the format at that place.
pub proof fn law_trove_keys(a: AppV, d: int, c: char)
    requires
        1 <= d <= 9,
        c as int == 48 + d,
        !a.trove.dl_active,
        a.trove.docs.len() <= usize::MAX,
    ensures
        a.trove.fmt_for is None && d <= a.trove.docs.len() && a.trove.fmt != "all"@ ==> trove_key(a, Key::Char(c)).1
            == ActV::Download(seq![a.trove.docs[d - 1]], Some(a.trove.fmt)),
        a.trove.fmt_for is None && d <= a.trove.docs.len() && a.trove.fmt == "all"@ ==> trove_key(a, Key::Char(c)).1
            == ActV::Download(seq![a.trove.docs[d - 1]], None),
        a.trove.docs.len() > 0 && a.trove.fmt != "all"@ ==> trove_key(a, Key::Char('a')).1 == ActV::Download(
            a.trove.docs,
            Some(a.trove.fmt),
        ),
        a.trove.sel < a.trove.docs.len() ==> trove_key(a, Key::Enter).1 == ActV::Formats(
            a.trove.sel,
            a.trove.docs[a.trove.sel as int],
        ),
        a.trove.fmt_for matches Some(i) ==> (i < a.trove.docs.len() && d <= a.trove.fmt_opts.len() ==> trove_key(
            a,
            Key::Char(c),
        ).1 == ActV::Download(seq![a.trove.docs[i as int]], Some(a.trove.fmt_opts[d - 1]))),
        trove_key(a, Key::Char('s')).0.input == Some(InputMode::TroveSearch),
        trove_key(a, Key::Char('s')).1 == ActV::Nothing,
{
    let docs = a.trove.docs;
    assert(digit_key(Key::Char(c)) == Some(d));
    if d <= docs.len() {
        lemma_one_doc(docs, (d - 1) as usize);
    }
    if let Some(i) = a.trove.fmt_for {
        if i < docs.len() {
            lemma_one_doc(docs, i);
        }
    }
    lemma_all_docs(docs, docs.len());
    assert(docs.take(docs.len() as int) =~= docs);
}

proof fn lemma_one_doc(docs: Seq<DocV>, i: usize)
    requires
        i < docs.len(),
    ensures
        docs_at(docs, seq![i]) == seq![docs[i as int]],
{
    reveal_with_fuel(docs_at, 2);
    assert(seq![i].drop_last() =~= Seq::<usize>::empty());
    assert(docs_at(docs, seq![i]) =~= seq![docs[i as int]]);
}

proof fn lemma_all_docs(docs: Seq<DocV>, n: nat)
    requires
        n <= docs.len() <= usize::MAX,
    ensures
        docs_at(docs, below(n as int)) == docs.take(n as int),
    decreases n,
{
    if n > 0 {
        lemma_all_docs(docs, (n - 1) as nat);
        assert(below(n as int).drop_last() =~= below(n - 1));
        assert(below(n as int).last() == n - 1);
        assert(docs.take(n as int) =~= docs.take(n - 1).push(docs[n - 1]));
    } else {
        assert(docs.take(0) =~= Seq::<DocV>::empty());
    }
}

/// What a line of input does when it is done: it filters the browser from its top, saves, loads or
/// removes the playlist of that name, or searches for the words; white space around them does not
/// count.
pub proof fn law_input_is_applied(a: AppV, ctrl: bool)
    ensures
        input_key(a, InputMode::Filter, Key::Enter, ctrl).0.filter == a.input_buf,
        input_key(a, InputMode::Filter, Key::Enter, ctrl).0.browser_sel == 0,
        !blank(a.input_buf) ==> input_key(a, InputMode::SavePl, Key::Enter, ctrl).1 == ActV::SaveList(trim(a.input_buf)),
        blank(a.input_buf) ==> input_key(a, InputMode::SavePl, Key::Enter, ctrl).1 == ActV::Nothing,
        input_key(a, InputMode::LoadPl, Key::Enter, ctrl).1 == ActV::LoadList(trim(a.input_buf)),
        input_key(a, InputMode::RmPl, Key::Enter, ctrl).1 == ActV::RemoveList(trim(a.input_buf)),
        !blank(a.input_buf) ==> {
            let r = input_key(a, InputMode::TroveSearch, Key::Enter, ctrl);
            r.1 == ActV::Search(trim(a.input_buf)) && r.0.trove.searching && r.0.trove.docs.len() == 0 && r.0.trove.query == trim(
                a.input_buf,
            )
        },
        forall|mode: InputMode|
            (#[trigger] input_key(a, mode, Key::Enter, ctrl)).0.input is None && input_key(a, mode, Key::Enter, ctrl).0.input_buf.len()
                == 0,
        forall|mode: InputMode|
            (#[trigger] input_key(a, mode, Key::Esc, ctrl)).0.input is None && input_key(a, mode, Key::Esc, ctrl).1
                == ActV::Nothing,
{
}

/// What a search found takes the place of what was there, from its top, and is counted; a search
/// that failed says why. What nobody waits for is passed over.
pub proof fn law_results_arrive(a: AppV, docs: Seq<DocV>, total: u64, err: Seq<char>, idx: usize, opts: Seq<Seq<char>>)
    ensures
        a.trove.searching ==> {
            let b = trove_polled(a, TroveEventV::Found(docs, total));
            &&& b.trove.docs == docs && b.trove.total == total && b.trove.sel == 0 && !b.trove.searching
            &&& b.msg == dec(docs.len() as int) + " hits ("@ + dec(total as int) + " total)"@ && b.msg_new
            &&& trove_polled(a, TroveEventV::SearchFailed(err)).msg == "search failed: "@ + err
            &&& trove_polled(a, TroveEventV::SearchFailed(err)).trove.docs == a.trove.docs
        },
        !a.trove.searching ==> trove_polled(a, TroveEventV::Found(docs, total)) == a,
        a.trove.fmt_pending ==> {
            let b = trove_polled(a, TroveEventV::Formats(idx, opts));
            b.trove.fmt_for == Some(idx) && b.trove.fmt_opts == opts && !b.trove.fmt_pending
        },
        a.trove.dl_active ==> !trove_polled(a, TroveEventV::Download(DlMsgV::Finished)).trove.dl_active && !trove_polled(
            a,
            TroveEventV::DownloadLost,
        ).trove.dl_active,
{
}

/// A click selects what stands on its row: the first row below the border is the first of the list.
pub proof fn law_click_selects(a: AppV, row: u16, height: u16, files: Seq<Seq<char>>, queued: int)
    requires
        1 <= row,
        row + 11 < height,
        files.len() <= usize::MAX,
    ensures
        a.pane() == Pane::Browser && row <= files.len() ==> clicked(a, row, height, false, files, queued) == (
            AppV { browser_sel: (row - 1) as usize, ..a },
            true,
            ActV::Nothing,
        ),
        a.pane() == Pane::Queue && row <= queued ==> clicked(a, row, height, false, files, queued) == (
            AppV { queue_sel: (row - 1) as usize, ..a },
            true,
            ActV::Nothing,
        ),
        a.pane() == Pane::Browser && row > files.len() ==> clicked(a, row, height, false, files, queued) == (
            a,
            false,
            ActV::Nothing,
        ),
        !a.cfg.mouse ==> moused(a, Mouse::Click(row, false), height, files, queued) == (a, false, ActV::Nothing),
        a.cfg.mouse ==> moused(a, Mouse::Click(row, false), height, files, queued) == clicked(a, row, height, false, files, queued),
{
}

/// The next speaker is the one behind the configured one in the roster, around its end, and is
/// stored; what was commanded of the configured one is shown of it and of no other.
pub proof fn law_speakers_cycle(a: AppV, i: int, state: Seq<char>, j: int)
    requires
        0 <= i < a.audio.roster.len(),
        place_of(a.audio.roster, a.cfg.audio_speaker) == Some(i),
    ensures
        ({
            let n = a.audio.roster.len();
            let next = if i == n - 1 {
                a.audio.roster[0].name
            } else {
                a.audio.roster[i + 1].name
            };
            speaker_cycled(a).0.cfg == (ConfigV { audio_speaker: next, ..a.cfg }) && speaker_cycled(a).1 == ActV::SaveConfig
        }),
        patched(a, Some(state), None).audio.roster[i].state == Some(state),
        patched(a, Some(state), None).audio.roster[i].volume == a.audio.roster[i].volume,
        0 <= j < a.audio.roster.len() && j != i ==> patched(a, Some(state), None).audio.roster[j] == a.audio.roster[j],
        entry_shown(a) == Some(a.audio.roster[i]),
{
    let n = a.audio.roster.len() as int;
    if i == n - 1 {
        assert((i + 1) % n == 0) by (nonlinear_arith)
            requires
                i == n - 1,
                n > 0,
        ;
    } else {
        assert((i + 1) % n == i + 1) by (nonlinear_arith)
            requires
                0 <= i,
                i + 1 < n,
        ;
    }
}

/// The configured speaker is the first in the roster whose name holds its name, case aside.
pub proof fn law_speaker_is_placed(roster: Seq<PlayerV>, name: Seq<char>)
    ensures
        match place_of(roster, name) {
            Some(i) => 0 <= i < roster.len() && has(lower(roster[i].name), lower(name)) && forall|j: int|
                0 <= j < i ==> !(has(lower((#[trigger] roster[j]).name), lower(name))),
            None => forall|j: int| 0 <= j < roster.len() ==> !(has(lower((#[trigger] roster[j]).name), lower(name))),
        },
    decreases roster.len(),
{
    if roster.len() > 0 {
        let rest = roster.skip(1);
        law_speaker_is_placed(rest, name);
        if !named_like(roster[0], name) {
            assert forall|j: int| 0 < j < roster.len() implies roster[j] == rest[j - 1] by {}
        }
    }
}

/// The volume that a speaker reports is the level of its last message that has one.
pub proof fn law_level_is_heard(level: int, kvs: Seq<Seq<char>>, n: int, kv: Seq<char>)
    requires
        i32::MIN <= n <= i32::MAX,
    ensures
        level_in_fields(level, kvs.push("level="@ + dec(n))) == n,
        !kv.contains('=') ==> level_in_fields(level, kvs.push(kv)) == level_in_fields(level, kvs),
        level_in_fields(level, Seq::empty()) == level,
        level_in(Seq::empty()) == 20,
{
    reveal_strlit("level=");
    reveal_strlit("level");
    let b = "level="@ + dec(n);
    crate::text::lemma_char_pos(b, '=');
    assert(b[5] == '=');
    assert(b.take(5) =~= "level"@);
    assert(b.skip(6) =~= dec(n));
    crate::nums::law_dec_reads_back(n, i32::MIN as int, i32::MAX as int);
    assert(kvs.push(b).drop_last() =~= kvs);
    assert(kvs.push(kv).drop_last() =~= kvs);
    crate::text::lemma_char_pos(kv, '=');
}

/// The interface begins in the browser at the top of the files, with nothing asked, said, searched
/// or downloaded, at three quarters of the volume and with a look for the speakers.
pub proof fn law_fresh_app(c: ConfigV)
    ensures
        ({
            let a = fresh_app(c);
            &&& a.cfg == c
            &&& a.pane() == Pane::Browser && a.browser_sel == 0 && a.queue_sel == 0
            &&& a.filter.len() == 0 && a.input is None && a.input_buf.len() == 0 && a.msg.len() == 0
            &&& a.audio.roster.len() == 0 && !a.audio.dlna_ok && !a.spk_pending && a.spk_force
            &&& a.trove.docs.len() == 0 && a.trove.total == 0 && !a.trove.searching && !a.trove.dl_active
            &&& a.trove.fmt == "mp3"@ && a.trove.fmt_for is None && !a.trove.fmt_pending && a.trove.log.len() == 0
            &&& a.mpv_vol == 75 && !a.mpv_paused && a.mpv_label.len() == 0
        }),
{
    reveal_strlit("");
}

/// What a look for the speakers brings takes the place of what was known of them; a look that was
/// lost is over, and nothing is taken that nobody waits for.
pub proof fn law_speakers_are_seen(a: AppV, roster: Vec<HeosPlayer>, ok: bool)
    ensures
        a.spk_pending ==> {
            let b = seen(a, Polled::Seen(roster, ok));
            b.audio.roster == players_view(roster@) && b.audio.dlna_ok == ok && !b.spk_pending
        },
        a.spk_pending ==> seen(a, Polled::Lost).audio == a.audio && !seen(a, Polled::Lost).spk_pending,
        seen(a, Polled::Nothing) == a,
        !a.spk_pending ==> seen(a, Polled::Seen(roster, ok)) == a,
{
}

/// A speaker is mute where one of its replies says so.
pub proof fn law_mute_is_heard(objs: Seq<JsonV>, o: JsonV, h: JsonV)
    ensures
        says_mute(objs.push(o)) <==> says_mute(objs) || says_mute(seq![o]),
        o.get("heos"@) == Some(h) ==> (says_mute(seq![o]) <==> has(h.str_or("message"@, ""@), "state=on"@)),
        !says_mute(Seq::empty()),
{
    let all = objs.push(o);
    assert(seq![o][0] == o);
    if says_mute(objs) {
        let i = choose|i: int| 0 <= i < objs.len() && has(message(#[trigger] objs[i]), "state=on"@);
        assert(all[i] == objs[i]);
    }
    if says_mute(seq![o]) {
        assert(all[objs.len() as int] == o);
    }
    if says_mute(all) {
        let i = choose|i: int| 0 <= i < all.len() && has(message(#[trigger] all[i]), "state=on"@);
        if i < objs.len() {
            assert(objs[i] == all[i]);
        }
    }
}

/// A search from the line of input asks the archive for the first ten of what its words mean.
pub proof fn law_line_searches(q: Seq<char>)
    ensures
        crate::text::starts(
            line_search(q),
            "https://archive.org/advancedsearch.php?q="@ + crate::urls::query_text(
                archive_query(kind_and_words(None, words(q)).0, kind_and_words(None, words(q)).1),
            ) + "&rows="@,
        ),
        has(line_search(q), "&rows="@ + dec(10) + "&page="@),
        has(line_search(q), "&page="@ + dec(1) + "&output=json&sort%5B%5D=downloads+desc"@),
{
    crate::trove::law_page_is_asked_for(archive_query(kind_and_words(None, words(q)).0, kind_and_words(None, words(q)).1), 10, 1);
}

/// Without any speaker there is none to change to, which is said.
pub proof fn law_no_speaker_is_said(a: AppV)
    requires
        a.audio.roster.len() == 0,
    ensures
        speaker_cycled(a).0.msg == "no speakers found"@ && speaker_cycled(a).0.cfg == a.cfg && speaker_cycled(a).1 == ActV::Nothing,
{
}

/// Replies of a speaker are heard one after the other; without any speaker none is shown, and where
/// the configured one is not there the first one is.
pub proof fn law_replies_are_heard_in_turn(objs: Seq<JsonV>, o: JsonV, a: AppV)
    ensures
        level_in(objs.push(o)) == level_in_fields(level_in(objs), fields(message(o))),
        a.audio.roster.len() == 0 ==> entry_shown(a) is None,
        a.audio.roster.len() > 0 && place_of(a.audio.roster, a.cfg.audio_speaker) is None ==> entry_shown(a) == Some(
            a.audio.roster[0],
        ),
{
    assert(objs.push(o).drop_last() =~= objs);
    law_speaker_is_placed(a.audio.roster, a.cfg.audio_speaker);
}

} // verus!
