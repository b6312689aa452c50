//! What the terminal interface shows: boxes, rows, and runs of text in a tone.

use vstd::prelude::*;
use crate::heos::{players_view, HeosPlayer, PlayerV};
use crate::nums::{dec, dec_i64, dec_u64, dec_usize, pad, pad_left};
use crate::queue::{items_view, ItemV, Session, SessionV};
use crate::text::{cat2, cat3, cat4, cat5, cat7, is_text, join, joined, opt_as_str, opt_str, views};
use crate::trove::{doc_lines, doc_text, docs_view, Doc, DocV};
use crate::tui::{
    entry_shown, item_name, menu_text, name_of_item, speaker_entry, stem_name, stem_text, title_text, App, AppV, InputMode,
    Pane, TroveState, TroveStateV,
};

verus! {

// ---- runs and rows ----

/// How a run of text looks.
#[derive(Clone, Copy, PartialEq, Eq, Structural)]
pub enum Tone {
    Plain,
    Dark,
    Gray,
    White,
    Cyan,
    Green,
    Yellow,
    /// Magenta and bold.
    Strong,
}

/// A run of text in one tone.
pub struct Run {
    pub text: String,
    pub tone: Tone,
}

/// The model of a [`Run`].
#[verifier::ext_equal]
pub struct RunV {
    pub text: Seq<char>,
    pub tone: Tone,
}

impl View for Run {
    type V = RunV;

    open spec fn view(&self) -> RunV {
        RunV { text: self.text@, tone: self.tone }
    }
}

/// A row of runs.
pub struct Row {
    pub runs: Vec<Run>,
}

impl View for Row {
    type V = Seq<RunV>;

    open spec fn view(&self) -> Seq<RunV> {
        Seq::new(self.runs@.len(), |i: int| self.runs@[i]@)
    }
}

/// The models of rows.
pub open spec fn rows_view(v: Seq<Row>) -> Seq<Seq<RunV>> {
    Seq::new(v.len(), |i: int| v[i]@)
}

/// A run.
pub open spec fn run(text: Seq<char>, tone: Tone) -> RunV {
    RunV { text, tone }
}

/// A row of one run.
pub open spec fn row1(text: Seq<char>, tone: Tone) -> Seq<RunV> {
    seq![run(text, tone)]
}

fn one_run(text: String, tone: Tone) -> (r: Row)
    ensures
        r@ == row1(text@, tone),
{
    let mut runs: Vec<Run> = Vec::new();
    runs.push(Run { text, tone });
    let r = Row { runs };
    assert(r@ == row1(text@, tone));
    r
}

fn two_runs(a: String, at: Tone, b: String, bt: Tone) -> (r: Row)
    ensures
        r@ == seq![run(a@, at), run(b@, bt)],
{
    let mut runs: Vec<Run> = Vec::new();
    runs.push(Run { text: a, tone: at });
    runs.push(Run { text: b, tone: bt });
    let r = Row { runs };
    assert(r@ == seq![run(a@, at), run(b@, bt)]);
    r
}

fn three_runs(a: String, at: Tone, b: String, bt: Tone, c: String, ct: Tone) -> (r: Row)
    ensures
        r@ == seq![run(a@, at), run(b@, bt), run(c@, ct)],
{
    let mut runs: Vec<Run> = Vec::new();
    runs.push(Run { text: a, tone: at });
    runs.push(Run { text: b, tone: bt });
    runs.push(Run { text: c, tone: ct });
    let r = Row { runs };
    assert(r@ == seq![run(a@, at), run(b@, bt), run(c@, ct)]);
    r
}

fn push_row(rows: &mut Vec<Row>, r: Row)
    ensures
        rows_view(final(rows)@) == rows_view(old(rows)@).push(r@),
        final(rows).len() == old(rows).len() + 1,
{
    let ghost before = rows_view(rows@);
    rows.push(r);
    assert(rows_view(rows@) == before.push(r@));
}

fn no_rows() -> (rows: Vec<Row>)
    ensures
        rows_view(rows@) == Seq::<Seq<RunV>>::empty(),
        rows.len() == 0,
{
    let rows: Vec<Row> = Vec::new();
    assert(rows_view(rows@) == Seq::<Seq<RunV>>::empty());
    rows
}

/// The row that is selected in a list of `n`, if it has any.
pub open spec fn selected_row(sel: usize, n: int) -> Option<int> {
    if n == 0 {
        None
    } else if sel as int <= n - 1 {
        Some(sel as int)
    } else {
        Some(n - 1)
    }
}

/// A place, if there is one.
pub open spec fn opt_place(o: Option<usize>) -> Option<int> {
    match o {
        Some(i) => Some(i as int),
        None => None,
    }
}

fn pick_row(sel: usize, n: usize) -> (r: Option<usize>)
    ensures
        opt_place(r) == selected_row(sel, n as int),
{
    if n == 0 {
        None
    } else if sel <= n - 1 {
        Some(sel)
    } else {
        Some(n - 1)
    }
}

// ---- the boxes ----

/// The title of the upper box.
pub open spec fn top_text(a: AppV) -> Seq<char> {
    " ✦ siren · "@ + title_text(a.pane()) + " · out:"@ + (if a.cfg.to_speaker() {
        "heos"@
    } else {
        "local"@
    }) + " ✦ "@
}

/// What a line of input is for.
pub open spec fn prompt_text(mode: InputMode) -> Seq<char> {
    match mode {
        InputMode::Filter => "filter"@,
        InputMode::SavePl => "save playlist as"@,
        InputMode::LoadPl => "load playlist"@,
        InputMode::RmPl => "remove playlist"@,
        InputMode::TroveSearch => "trove search (kind + words)"@,
    }
}

/// What the trove view is at.
pub open spec fn trove_hint(t: TroveStateV) -> Seq<char> {
    if t.searching {
        "searching…"@
    } else if t.dl_active {
        "downloading…"@
    } else if t.docs.len() == 0 {
        "s to search"@
    } else {
        "enter vers · 1-9 dl · a all"@
    }
}

/// The hint of the focused view.
pub open spec fn hint_text(a: AppV, tracks: int, queued: int) -> Seq<char> {
    match a.pane() {
        Pane::Browser => dec(tracks) + " tracks · tab cycle · q quit"@,
        Pane::Queue => dec(queued) + " queued · tab cycle · q quit"@,
        Pane::Audio => "out:"@ + a.cfg.audio_output + " · spk:"@ + a.cfg.audio_speaker + " · tab cycle · q quit"@,
        Pane::Trove => trove_hint(a.trove) + " · fmt:"@ + a.trove.fmt + " · tab cycle · q quit"@,
    }
}

/// The lower box: the line of input, or the keys of the focused view with a message that is
/// still fresh, or else its hint.
pub open spec fn menu_box(a: AppV, fresh: bool, tracks: int, queued: int) -> (Seq<char>, Seq<Seq<RunV>>) {
    match a.input {
        Some(mode) => (
            " ✦ "@ + prompt_text(mode) + " ✦ "@,
            seq![seq![run("  "@, Tone::Plain), run(a.input_buf + "█"@, Tone::White)]],
        ),
        None => (
            " ✦ "@ + title_text(a.pane()) + " menu ✦ "@,
            seq![
                row1("  "@ + menu_text(a.pane()), Tone::Gray),
                if a.msg.len() > 0 && fresh {
                    seq![run("  "@, Tone::Plain), run(a.msg, Tone::Cyan)]
                } else {
                    row1("  "@ + hint_text(a, tracks, queued), Tone::Dark)
                },
            ],
        ),
    }
}

/// The title of the upper box.
pub fn top_title(app: &App) -> (s: String)
    ensures
        s@ == top_text(app@),
{
    let out = if app.is_heos() {
        "heos"
    } else {
        "local"
    };
    cat5(" ✦ siren · ", app.pane().title(), " · out:", out, " ✦ ")
}

fn show_hint(app: &App, tracks: usize, queued: usize) -> (s: String)
    ensures
        s@ == hint_text(app@, tracks as int, queued as int),
{
    match app.pane() {
        Pane::Browser => cat2(dec_usize(tracks).as_str(), " tracks · tab cycle · q quit"),
        Pane::Queue => cat2(dec_usize(queued).as_str(), " queued · tab cycle · q quit"),
        Pane::Audio => cat5(
            "out:",
            app.cfg.audio_output.as_str(),
            " · spk:",
            app.cfg.audio_speaker.as_str(),
            " · tab cycle · q quit",
        ),
        Pane::Trove => {
            assert(docs_view(app.trove.docs@).len() == app.trove.docs.len());
            let st = if app.trove.searching {
                "searching…"
            } else if app.trove.dl_active {
                "downloading…"
            } else if app.trove.docs.len() == 0 {
                "s to search"
            } else {
                "enter vers · 1-9 dl · a all"
            };
            cat4(st, " · fmt:", app.trove.fmt.as_str(), " · tab cycle · q quit")
        },
    }
}

/// The lower box: its title and its rows. `fresh` says whether the message is.
pub fn draw_menu(app: &App, fresh: bool, tracks: usize, queued: usize) -> (r: (String, Vec<Row>))
    ensures
        (r.0@, rows_view(r.1@)) == menu_box(app@, fresh, tracks as int, queued as int),
{
    let mut rows = no_rows();
    match app.input {
        Some(mode) => {
            let prompt = match mode {
                InputMode::Filter => "filter",
                InputMode::SavePl => "save playlist as",
                InputMode::LoadPl => "load playlist",
                InputMode::RmPl => "remove playlist",
                InputMode::TroveSearch => "trove search (kind + words)",
            };
            push_row(&mut rows, two_runs("  ".to_owned(), Tone::Plain, cat2(app.input_buf.as_str(), "█"), Tone::White));
            assert(rows_view(rows@) == menu_box(app@, fresh, tracks as int, queued as int).1);
            (cat3(" ✦ ", prompt, " ✦ "), rows)
        },
        None => {
            push_row(&mut rows, one_run(cat2("  ", app.pane().menu()), Tone::Gray));
            if !app.msg.as_str().is_empty() && fresh {
                push_row(&mut rows, two_runs("  ".to_owned(), Tone::Plain, app.msg.clone(), Tone::Cyan));
            } else {
                push_row(&mut rows, one_run(cat2("  ", show_hint(app, tracks, queued).as_str()), Tone::Dark));
            }
            assert(rows_view(rows@) == menu_box(app@, fresh, tracks as int, queued as int).1);
            (cat3(" ✦ ", app.pane().title(), " menu ✦ "), rows)
        },
    }
}

// ---- the views ----

/// The rows of the browser.
pub open spec fn browser_rows(files: Seq<Seq<char>>) -> Seq<Seq<RunV>> {
    Seq::new(files.len(), |i: int| row1("  "@ + stem_text(files[i]), Tone::Plain))
}

/// The browser: its rows, and the selected one.
pub fn draw_browser(app: &App, files: &Vec<String>) -> (r: (Vec<Row>, Option<usize>))
    ensures
        rows_view(r.0@) == browser_rows(views(files@)),
        opt_place(r.1) == selected_row(app.browser_sel, files.len() as int),
{
    let mut rows = no_rows();
    let ghost all = views(files@);
    assert(browser_rows(all.take(0)) == Seq::<Seq<RunV>>::empty());
    for i in 0..files.len()
        invariant
            all == views(files@),
            rows_view(rows@) == browser_rows(all.take(i as int)),
    {
        push_row(&mut rows, one_run(cat2("  ", stem_name(files[i].as_str()).as_str()), Tone::Plain));
        assert(browser_rows(all.take(i + 1)) == browser_rows(all.take(i as int)).push(
            row1("  "@ + stem_text(all[i as int]), Tone::Plain),
        ));
    }
    assert(all.take(all.len() as int) == all);
    (rows, pick_row(app.browser_sel, files.len()))
}

/// The row of the `i`th item of the queue.
pub open spec fn queue_row(i: int, it: ItemV) -> Seq<RunV> {
    row1(
        (if i == 0 {
            "▶ "@
        } else {
            "  "@
        }) + pad(dec(i + 1), 3) + ". "@ + item_name(it),
        Tone::Plain,
    )
}

/// The rows of the queue.
pub open spec fn queue_rows(items: Seq<ItemV>) -> Seq<Seq<RunV>> {
    if items.len() == 0 {
        seq![row1("  (queue empty)"@, Tone::Dark)]
    } else {
        Seq::new(items.len(), |i: int| queue_row(i, items[i]))
    }
}

/// The queue: its rows, and the selected one.
pub fn draw_queue(app: &App, s: &Session) -> (r: (Vec<Row>, Option<usize>))
    ensures
        rows_view(r.0@) == queue_rows(s@.items),
        opt_place(r.1) == selected_row(app.queue_sel, s@.items.len() as int),
{
    let mut rows = no_rows();
    let items = &s.queue.items;
    let ghost all = s@.items;
    assert(all == items_view(items@));
    if items.len() == 0 {
        push_row(&mut rows, one_run("  (queue empty)".to_owned(), Tone::Dark));
        assert(rows_view(rows@) == queue_rows(all));
        return (rows, None);
    }
    for i in 0..items.len()
        invariant
            all == items_view(items@),
            rows.len() == i,
            forall|j: int| 0 <= j < i ==> (#[trigger] rows@[j])@ == queue_row(j, all[j]),
    {
        let mark = if i == 0 {
            "▶ "
        } else {
            "  "
        };
        let number = pad_left(dec_usize(i + 1).as_str(), 3);
        let text = cat4(mark, number.as_str(), ". ", name_of_item(&items[i]).as_str());
        rows.push(one_run(text, Tone::Plain));
    }
    assert(rows_view(rows@) == queue_rows(all));
    (rows, pick_row(app.queue_sel, items.len()))
}

/// A volume behind a name; none is empty.
pub open spec fn volume_tail(v: Option<i32>) -> Seq<char> {
    match v {
        Some(n) => "  "@ + dec(n as int) + "%"@,
        None => ""@,
    }
}

fn show_volume_tail(v: Option<i32>) -> (s: String)
    ensures
        s@ == volume_tail(v),
{
    match v {
        Some(n) => cat3("  ", dec_i64(n as i64).as_str(), "%"),
        None => "".to_owned(),
    }
}

/// The mark of what plays or rests.
pub open spec fn play_mark(playing: bool) -> Seq<char> {
    if playing {
        "▶ "@
    } else {
        "❚❚ "@
    }
}

fn show_mark(playing: bool) -> (s: String)
    ensures
        s@ == play_mark(playing),
{
    if playing {
        "▶ ".to_owned()
    } else {
        "❚❚ ".to_owned()
    }
}

/// The bars of a track, once they are known.
pub open spec fn bars_text(bars: Option<Seq<char>>) -> Seq<char> {
    match bars {
        Some(b) => b,
        None => "analyzing…"@,
    }
}

fn show_bars(bars: Option<&str>) -> (s: String)
    ensures
        s@ == bars_text(opt_str(bars)),
{
    match bars {
        Some(b) => b.to_owned(),
        None => "analyzing…".to_owned(),
    }
}

/// The rows of the strip of waves. `now` is the path that plays here, `bars` are those of what
/// plays, and `alive` says whether mpv runs.
pub open spec fn waves_rows(a: AppV, now: Seq<char>, bars: Option<Seq<char>>, alive: bool) -> Seq<Seq<RunV>> {
    if a.cfg.to_speaker() {
        match entry_shown(a) {
            Some(p) => seq![
                seq![
                    run("  "@, Tone::Plain),
                    run(play_mark(p.state == Some("play"@)), Tone::Green),
                    run(p.name + " — "@ + crate::cli::state_text(p.state) + volume_tail(p.volume), Tone::Plain),
                ],
                row1("  "@ + bars_text(bars), Tone::Plain),
            ],
            None => seq![
                row1("  heos → "@ + a.cfg.audio_speaker, Tone::Plain),
                row1("  no speaker seen — v in audio view"@, Tone::Dark),
            ],
        }
    } else if a.mpv_label.len() == 0 && !alive {
        seq![row1("  idle — no mpv"@, Tone::Dark)]
    } else {
        seq![
            seq![
                run("  "@, Tone::Plain),
                run(play_mark(!a.mpv_paused), Tone::Green),
                run(
                    if a.mpv_label.len() == 0 {
                        "— silence —"@
                    } else {
                        a.mpv_label
                    },
                    Tone::Plain,
                ),
            ],
            row1(
                "  "@ + (if now.len() == 0 {
                    "—"@
                } else {
                    bars_text(bars)
                }),
                Tone::Plain,
            ),
        ]
    }
}

/// The strip of waves.
pub fn waves_lines(app: &App, now: &str, bars: Option<&str>, alive: bool) -> (rows: Vec<Row>)
    ensures
        rows_view(rows@) == waves_rows(app@, now@, opt_str(bars), alive),
{
    let mut rows = no_rows();
    if app.is_heos() {
        match speaker_entry(app) {
            Some(p) => {
                let playing = is_text(opt_as_str(&p.state), "play");
                let label = cat4(
                    p.name.as_str(),
                    " — ",
                    crate::cli::show_state(&p.state).as_str(),
                    show_volume_tail(p.volume).as_str(),
                );
                push_row(
                    &mut rows,
                    three_runs("  ".to_owned(), Tone::Plain, show_mark(playing), Tone::Green, label, Tone::Plain),
                );
                push_row(&mut rows, one_run(cat2("  ", show_bars(bars).as_str()), Tone::Plain));
            },
            None => {
                push_row(&mut rows, one_run(cat2("  heos → ", app.cfg.audio_speaker.as_str()), Tone::Plain));
                push_row(&mut rows, one_run("  no speaker seen — v in audio view".to_owned(), Tone::Dark));
            },
        }
        assert(rows_view(rows@) == waves_rows(app@, now@, opt_str(bars), alive));
        return rows;
    }
    if app.mpv_label.as_str().is_empty() && !alive {
        push_row(&mut rows, one_run("  idle — no mpv".to_owned(), Tone::Dark));
        assert(rows_view(rows@) == waves_rows(app@, now@, opt_str(bars), alive));
        return rows;
    }
    let label = if app.mpv_label.as_str().is_empty() {
        "— silence —".to_owned()
    } else {
        app.mpv_label.clone()
    };
    push_row(
        &mut rows,
        three_runs("  ".to_owned(), Tone::Plain, show_mark(!app.mpv_paused), Tone::Green, label, Tone::Plain),
    );
    let text = if now.is_empty() {
        "—".to_owned()
    } else {
        show_bars(bars)
    };
    push_row(&mut rows, one_run(cat2("  ", text.as_str()), Tone::Plain));
    assert(rows_view(rows@) == waves_rows(app@, now@, opt_str(bars), alive));
    rows
}

// ---- trove ----

/// The row above the results where there are none.
pub open spec fn trove_head(t: TroveStateV) -> Seq<Seq<RunV>> {
    if t.searching {
        seq![row1("  searching archive.org…"@, Tone::Dark)]
    } else if t.docs.len() == 0 {
        seq![
            row1(
                if t.query.len() == 0 {
                    "  press s to search free & legal music"@
                } else {
                    "  no results — s to search again"@
                },
                Tone::Dark,
            ),
        ]
    } else {
        Seq::empty()
    }
}

/// The two rows of each result.
pub open spec fn doc_rows(docs: Seq<DocV>) -> Seq<Seq<RunV>>
    decreases docs.len(),
{
    if docs.len() == 0 {
        Seq::empty()
    } else {
        let text = doc_text(docs.len() as int, docs.last());
        doc_rows(docs.drop_last()).push(row1("  "@ + text.0, Tone::Plain)).push(
            row1("      "@ + text.1, Tone::Dark),
        )
    }
}

/// The formats that can be picked, with their numbers.
pub open spec fn numbered(opts: Seq<Seq<char>>) -> Seq<Seq<char>> {
    Seq::new(opts.len(), |i: int| dec(i + 1) + " "@ + opts[i])
}

/// The row that asks for a format, where one is asked for.
pub open spec fn format_row(t: TroveStateV) -> Seq<Seq<RunV>> {
    match t.fmt_for {
        Some(idx) => if idx < t.docs.len() {
            seq![
                seq![
                    run("  version? "@, Tone::Plain),
                    run(
                        t.docs[idx as int].identifier + " — "@ + (if t.fmt_opts.len() == 0 {
                            "reading versions…"@
                        } else {
                            join(numbered(t.fmt_opts), " · "@)
                        }),
                        Tone::Yellow,
                    ),
                ],
            ]
        } else {
            Seq::empty()
        },
        None => Seq::empty(),
    }
}

/// How many lines of the log are shown.
pub const SHOWN_LOG: usize = 3;

/// The last lines of the log, the newest at the bottom.
pub open spec fn log_rows(log: Seq<Seq<char>>) -> Seq<Seq<RunV>> {
    let from = if log.len() > SHOWN_LOG {
        log.len() - SHOWN_LOG
    } else {
        0
    };
    Seq::new((log.len() - from) as nat, |i: int| row1("  "@ + log[from + i], Tone::Cyan))
}

/// The title above the results, where something was looked for.
pub open spec fn trove_title(t: TroveStateV) -> Seq<Seq<RunV>> {
    if t.query.len() == 0 {
        Seq::empty()
    } else {
        seq![
            row1(
                "  "@ + dec(t.docs.len() as int) + " hits ("@ + dec(t.total as int) + " total) for “"@ + t.query + "”"@,
                Tone::Gray,
            ),
        ]
    }
}

/// The rows of the trove view below its title.
pub open spec fn trove_body(t: TroveStateV) -> Seq<Seq<RunV>> {
    trove_head(t) + doc_rows(t.docs) + format_row(t) + log_rows(t.log)
}

/// The rows of the trove view.
pub open spec fn trove_rows(t: TroveStateV) -> Seq<Seq<RunV>> {
    trove_title(t) + trove_body(t)
}

/// The row that is selected in the trove view: that of the selected result, of which each
/// has two.
pub open spec fn trove_selected(t: TroveStateV) -> Option<int> {
    match selected_row(t.sel, t.docs.len() as int) {
        Some(i) => {
            let last = trove_body(t).len() - 1;
            if 1 + i * 2 <= last {
                Some(1 + i * 2)
            } else {
                Some(last)
            }
        },
        None => None,
    }
}

fn push_head(rows: &mut Vec<Row>, t: &TroveState)
    ensures
        rows_view(final(rows)@) == rows_view(old(rows)@) + trove_head(t@),
{
    assert(docs_view(t.docs@).len() == t.docs.len());
    if t.searching {
        push_row(rows, one_run("  searching archive.org…".to_owned(), Tone::Dark));
    } else if t.docs.len() == 0 {
        let text = if t.query.as_str().is_empty() {
            "  press s to search free & legal music"
        } else {
            "  no results — s to search again"
        };
        push_row(rows, one_run(text.to_owned(), Tone::Dark));
    }
    assert(rows_view(rows@) == rows_view(old(rows)@) + trove_head(t@));
}

fn push_docs(rows: &mut Vec<Row>, docs: &Vec<Doc>)
    ensures
        rows_view(final(rows)@) == rows_view(old(rows)@) + doc_rows(docs_view(docs@)),
{
    let ghost all = docs_view(docs@);
    let ghost start = rows_view(rows@);
    assert(start == start + doc_rows(all.take(0)));
    for i in 0..docs.len()
        invariant
            all == docs_view(docs@),
            rows_view(rows@) == start + doc_rows(all.take(i as int)),
    {
        assert(all.take(i + 1).drop_last() == all.take(i as int));
        assert(all.take(i + 1).last() == docs@[i as int]@);
        assert(all.take(i + 1).len() == i + 1);
        let (first, second) = doc_lines(i + 1, &docs[i]);
        push_row(rows, one_run(cat2("  ", first.as_str()), Tone::Plain));
        push_row(rows, one_run(cat2("      ", second.as_str()), Tone::Dark));
        assert(rows_view(rows@) == start + doc_rows(all.take(i + 1)));
    }
    assert(all.take(all.len() as int) == all);
}

fn number_formats(opts: &Vec<String>) -> (r: Vec<String>)
    ensures
        views(r@) == numbered(views(opts@)),
{
    let ghost all = views(opts@);
    let mut r: Vec<String> = Vec::new();
    for i in 0..opts.len()
        invariant
            all == views(opts@),
            r.len() == i,
            forall|j: int| 0 <= j < i ==> (#[trigger] r@[j])@ == dec(j + 1) + " "@ + all[j],
    {
        r.push(cat3(dec_usize(i + 1).as_str(), " ", opts[i].as_str()));
    }
    assert(views(r@) == numbered(all));
    r
}

fn push_format(rows: &mut Vec<Row>, t: &TroveState)
    ensures
        rows_view(final(rows)@) == rows_view(old(rows)@) + format_row(t@),
{
    let ghost start = rows_view(rows@);
    assert(docs_view(t.docs@).len() == t.docs.len());
    assert(views(t.fmt_opts@).len() == t.fmt_opts.len());
    match t.fmt_for {
        Some(idx) => {
            if idx < t.docs.len() {
                let what = if t.fmt_opts.len() == 0 {
                    "reading versions…".to_owned()
                } else {
                    joined(&number_formats(&t.fmt_opts), " · ")
                };
                assert(docs_view(t.docs@)[idx as int] == t.docs@[idx as int]@);
                let text = cat3(t.docs[idx].identifier.as_str(), " — ", what.as_str());
                push_row(rows, two_runs("  version? ".to_owned(), Tone::Plain, text, Tone::Yellow));
            }
        },
        None => {},
    }
    assert(rows_view(rows@) == start + format_row(t@));
}

fn push_log_rows(rows: &mut Vec<Row>, log: &Vec<String>)
    ensures
        rows_view(final(rows)@) == rows_view(old(rows)@) + log_rows(views(log@)),
{
    let ghost start = rows_view(rows@);
    let ghost all = views(log@);
    assert(all.len() == log.len());
    let from: usize = if log.len() > SHOWN_LOG {
        log.len() - SHOWN_LOG
    } else {
        0
    };
    assert(start == start + log_rows(all).take(0));
    for i in from..log.len()
        invariant
            all == views(log@),
            from == (if log.len() > SHOWN_LOG {
                log.len() - SHOWN_LOG
            } else {
                0
            }),
            rows_view(rows@) == start + log_rows(all).take(i - from),
    {
        push_row(rows, one_run(cat2("  ", log[i].as_str()), Tone::Cyan));
        assert(log_rows(all).take(i + 1 - from) == log_rows(all).take(i - from).push(
            row1("  "@ + all[i as int], Tone::Cyan),
        ));
        assert(rows_view(rows@) == start + log_rows(all).take(i + 1 - from));
    }
    assert(log_rows(all).take(log.len() - from) == log_rows(all));
}

proof fn lemma_doc_rows(docs: Seq<DocV>)
    ensures
        doc_rows(docs).len() == 2 * docs.len(),
    decreases docs.len(),
{
    if docs.len() > 0 {
        lemma_doc_rows(docs.drop_last());
    }
}

/// The trove view: its rows, and the selected one.
pub fn draw_trove(app: &App) -> (r: (Vec<Row>, Option<usize>))
    ensures
        rows_view(r.0@) == trove_rows(app@.trove),
        opt_place(r.1) == trove_selected(app@.trove),
{
    let t = &app.trove;
    let ghost tv = app@.trove;
    assert(docs_view(t.docs@).len() == t.docs.len());
    let mut rows = no_rows();
    push_head(&mut rows, t);
    push_docs(&mut rows, &t.docs);
    push_format(&mut rows, t);
    push_log_rows(&mut rows, &t.log);
    assert(rows_view(rows@) == trove_body(tv));
    assert(rows_view(rows@).len() == rows.len());
    proof {
        lemma_doc_rows(tv.docs);
    }
    let sel = match pick_row(t.sel, t.docs.len()) {
        Some(i) => {
            assert(rows.len() >= 2 * tv.docs.len());
            assert(1 + i * 2 <= 2 * tv.docs.len() - 1);
            Some(1 + i * 2)
        },
        None => None,
    };
    if !t.query.as_str().is_empty() {
        let title = cat7(
            "  ",
            dec_usize(t.docs.len()).as_str(),
            " hits (",
            dec_u64(t.total).as_str(),
            " total) for “",
            t.query.as_str(),
            "”",
        );
        let ghost body = rows_view(rows@);
        rows.insert(0, one_run(title, Tone::Gray));
        assert(rows_view(rows@) == trove_title(tv) + body);
    } else {
        assert(rows_view(rows@) == trove_title(tv) + rows_view(rows@));
    }
    (rows, sel)
}

// ---- audio ----

/// The row of a speaker.
pub open spec fn player_row(p: PlayerV) -> Seq<RunV> {
    let playing = p.state == Some("play"@);
    seq![
        run(
            "  "@ + (if playing {
                "▶"@
            } else {
                "·"@
            }) + " "@,
            Tone::Plain,
        ),
        run(
            p.name,
            if playing {
                Tone::Green
            } else {
                Tone::Gray
            },
        ),
        run("  "@ + p.model + "  "@ + p.ip + volume_tail(p.volume), Tone::Plain),
    ]
}

/// The rows of the speakers.
pub open spec fn player_rows(roster: Seq<PlayerV>) -> Seq<Seq<RunV>> {
    Seq::new(roster.len(), |i: int| player_row(roster[i]))
}

/// The rows of the audio view.
pub open spec fn audio_rows(a: AppV) -> Seq<Seq<RunV>> {
    seq![
        seq![
            run("  output   "@, Tone::Plain),
            run(a.cfg.audio_output, Tone::Strong),
            run("   (o toggle)"@, Tone::Dark),
        ],
        seq![
            run("  speaker  "@, Tone::Plain),
            run(a.cfg.audio_speaker, Tone::Cyan),
            run("   (s cycle · v refresh)"@, Tone::Dark),
        ],
    ] + (if a.audio.roster.len() == 0 {
        seq![row1("  no speakers seen — press v"@, Tone::Dark)]
    } else {
        player_rows(a.audio.roster)
    }) + seq![
        row1(
            "  dlna "@ + (if a.audio.dlna_ok {
                "ok"@
            } else {
                "down"@
            }) + "   (t test-cast · m mute · +/- vol)"@,
            Tone::Dark,
        ),
    ]
}

fn show_player(p: &HeosPlayer) -> (r: Row)
    ensures
        r@ == player_row(p@),
{
    let playing = is_text(opt_as_str(&p.state), "play");
    let mark = if playing {
        "▶"
    } else {
        "·"
    };
    let tone = if playing {
        Tone::Green
    } else {
        Tone::Gray
    };
    three_runs(
        cat3("  ", mark, " "),
        Tone::Plain,
        p.name.clone(),
        tone,
        cat5("  ", p.model.as_str(), "  ", p.ip.as_str(), show_volume_tail(p.volume).as_str()),
        Tone::Plain,
    )
}

/// The audio view.
pub fn draw_audio(app: &App) -> (rows: Vec<Row>)
    ensures
        rows_view(rows@) == audio_rows(app@),
{
    let mut rows = no_rows();
    push_row(
        &mut rows,
        three_runs(
            "  output   ".to_owned(),
            Tone::Plain,
            app.cfg.audio_output.clone(),
            Tone::Strong,
            "   (o toggle)".to_owned(),
            Tone::Dark,
        ),
    );
    push_row(
        &mut rows,
        three_runs(
            "  speaker  ".to_owned(),
            Tone::Plain,
            app.cfg.audio_speaker.clone(),
            Tone::Cyan,
            "   (s cycle · v refresh)".to_owned(),
            Tone::Dark,
        ),
    );
    let roster = &app.audio.roster;
    let ghost all = players_view(roster@);
    assert(all.len() == roster.len());
    if roster.len() == 0 {
        push_row(&mut rows, one_run("  no speakers seen — press v".to_owned(), Tone::Dark));
    }
    let ghost start = rows_view(rows@);
    assert(start == start + player_rows(all.take(0)));
    for i in 0..roster.len()
        invariant
            all == players_view(roster@),
            rows_view(rows@) == start + player_rows(all.take(i as int)),
    {
        push_row(&mut rows, show_player(&roster[i]));
        assert(player_rows(all.take(i + 1)) == player_rows(all.take(i as int)).push(player_row(all[i as int])));
        assert(rows_view(rows@) == start + player_rows(all.take(i + 1)));
    }
    assert(all.take(all.len() as int) == all);
    let state = if app.audio.dlna_ok {
        "ok"
    } else {
        "down"
    };
    push_row(&mut rows, one_run(cat3("  dlna ", state, "   (t test-cast · m mute · +/- vol)"), Tone::Dark));
    assert(rows_view(rows@) == audio_rows(app@));
    rows
}

// ---- the screen ----

/// What the screen shows: the upper box with the selected row, the strip of waves, the lower
/// box.
pub struct Screen {
    pub top_title: String,
    pub body: Vec<Row>,
    pub selected: Option<usize>,
    pub waves: Vec<Row>,
    pub menu_title: String,
    pub menu: Vec<Row>,
}

/// The model of a [`Screen`].
#[verifier::ext_equal]
pub struct ScreenV {
    pub top_title: Seq<char>,
    pub body: Seq<Seq<RunV>>,
    pub selected: Option<int>,
    pub waves: Seq<Seq<RunV>>,
    pub menu_title: Seq<char>,
    pub menu: Seq<Seq<RunV>>,
}

impl View for Screen {
    type V = ScreenV;

    open spec fn view(&self) -> ScreenV {
        ScreenV {
            top_title: self.top_title@,
            body: rows_view(self.body@),
            selected: opt_place(self.selected),
            waves: rows_view(self.waves@),
            menu_title: self.menu_title@,
            menu: rows_view(self.menu@),
        }
    }
}

/// The rows of the focused view, and the selected one.
pub open spec fn focused_rows(a: AppV, s: SessionV, files: Seq<Seq<char>>) -> (Seq<Seq<RunV>>, Option<int>) {
    match a.pane() {
        Pane::Browser => (browser_rows(files), selected_row(a.browser_sel, files.len() as int)),
        Pane::Queue => (queue_rows(s.items), selected_row(a.queue_sel, s.items.len() as int)),
        Pane::Audio => (audio_rows(a), None),
        Pane::Trove => (trove_rows(a.trove), trove_selected(a.trove)),
    }
}

/// What the screen shows.
pub open spec fn screen_of(
    a: AppV,
    s: SessionV,
    files: Seq<Seq<char>>,
    fresh: bool,
    now: Seq<char>,
    bars: Option<Seq<char>>,
    alive: bool,
) -> ScreenV {
    let (body, selected) = focused_rows(a, s, files);
    let (menu_title, menu) = menu_box(a, fresh, files.len() as int, s.items.len() as int);
    ScreenV { top_title: top_text(a), body, selected, waves: waves_rows(a, now, bars, alive), menu_title, menu }
}

/// Draws the screen. `files` are the files that the browser lists; `fresh` says whether the
/// message is; `now` is the path that plays here, `bars` are those of what plays, and `alive`
/// says whether mpv runs.
pub fn draw(
    app: &App,
    s: &Session,
    files: &Vec<String>,
    fresh: bool,
    now: &str,
    bars: Option<&str>,
    alive: bool,
) -> (r: Screen)
    ensures
        r@ == screen_of(app@, s@, views(files@), fresh, now@, opt_str(bars), alive),
{
    assert(views(files@).len() == files.len());
    assert(items_view(s.queue.items@).len() == s.queue.items.len());
    let (body, selected) = match app.pane() {
        Pane::Browser => draw_browser(app, files),
        Pane::Queue => draw_queue(app, s),
        Pane::Audio => (draw_audio(app), None),
        Pane::Trove => draw_trove(app),
    };
    let (menu_title, menu) = draw_menu(app, fresh, files.len(), s.queue.items.len());
    let waves = waves_lines(app, now, bars, alive);
    Screen { top_title: top_title(app), body, selected, waves, menu_title, menu }
}

// ---- laws ----

/// What is selected is on the screen: the selected row of each list is one of its rows.
pub proof fn law_selection_is_shown(t: TroveStateV, sel: usize, n: int)
    requires
        n >= 0,
    ensures
        selected_row(sel, n) matches Some(i) ==> 0 <= i < n,
        trove_selected(t) matches Some(i) ==> 0 <= i < trove_rows(t).len(),
{
    lemma_doc_rows(t.docs);
}

/// A click on either row of a result hits that result, where a title stands above the results
/// and nothing between.
pub proof fn law_click_hits_result(t: TroveStateV, d: int)
    requires
        0 <= d < t.docs.len(),
        t.query.len() > 0,
        !t.searching,
    ensures
        trove_rows(t)[1 + 2 * d] == row1("  "@ + doc_text(d + 1, t.docs[d]).0, Tone::Plain),
        crate::tui::doc_index(t, 1 + 2 * d) == Some(d),
        crate::tui::doc_index(t, 2 + 2 * d) == Some(d),
{
    lemma_doc_rows(t.docs);
    lemma_doc_row_at(t.docs, d);
    let body = trove_body(t);
    assert(trove_head(t).len() == 0);
    assert(body[2 * d] == doc_rows(t.docs)[2 * d]);
    assert(trove_rows(t)[1 + 2 * d] == body[2 * d]);
}

proof fn lemma_doc_row_at(docs: Seq<DocV>, d: int)
    requires
        0 <= d < docs.len(),
    ensures
        doc_rows(docs)[2 * d] == row1("  "@ + doc_text(d + 1, docs[d]).0, Tone::Plain),
    decreases docs.len(),
{
    lemma_doc_rows(docs.drop_last());
    if d < docs.len() - 1 {
        lemma_doc_row_at(docs.drop_last(), d);
        assert(docs.drop_last()[d] == docs[d]);
    }
}

/// The browser shows each file by its stem, and the queue each track by its place, counted from
/// one, and its name, both in their order.
pub proof fn law_lists_are_shown(files: Seq<Seq<char>>, items: Seq<ItemV>, i: int)
    ensures
        browser_rows(files).len() == files.len(),
        0 <= i < files.len() ==> browser_rows(files)[i] == seq![RunV { text: "  "@ + stem_text(files[i]), tone: Tone::Plain }],
        items.len() > 0 ==> queue_rows(items).len() == items.len(),
        0 <= i < items.len() ==> queue_rows(items)[i].len() == 1 && crate::text::ends(
            queue_rows(items)[i][0].text,
            dec(i + 1) + ". "@ + item_name(items[i]),
        ),
        0 < items.len() ==> crate::text::starts(queue_rows(items)[0][0].text, "▶ "@),
{
    if 0 <= i < items.len() {
        lemma_queue_row(i, items[i]);
    }
    if items.len() > 0 {
        lemma_queue_row(0, items[0]);
    }
}

proof fn lemma_queue_row(i: int, it: ItemV)
    ensures
        crate::text::ends(queue_row(i, it)[0].text, dec(i + 1) + ". "@ + item_name(it)),
        i == 0 ==> crate::text::starts(queue_row(i, it)[0].text, "▶ "@),
{
    let head = if i == 0 {
        "▶ "@
    } else {
        "  "@
    };
    let d = dec(i + 1);
    let gap = pad(d, 3).take(pad(d, 3).len() - d.len());
    assert(pad(d, 3) =~= gap + d);
    lemma_row_parts(head, gap, d, ". "@, item_name(it));
}

proof fn lemma_row_parts(head: Seq<char>, gap: Seq<char>, d: Seq<char>, dot: Seq<char>, t: Seq<char>)
    ensures
        crate::text::ends(head + (gap + d) + dot + t, d + dot + t),
        crate::text::starts(head + (gap + d) + dot + t, head),
{
    let all = head + (gap + d) + dot + t;
    let tail = d + dot + t;
    let front = head + gap;
    assert(front + tail =~= all);
    crate::text::law_has_is_contains(front, tail, Seq::empty());
    let rest = gap + tail;
    assert(head + rest =~= all);
    crate::text::law_has_is_contains(Seq::empty(), head, rest);
}

/// What is shown is the focused view with its selection; below it the strip, and the line of input
/// where one is open, else the keys of the view and a message as long as it is fresh.
pub proof fn law_screen_shows(
    a: AppV,
    s: SessionV,
    files: Seq<Seq<char>>,
    fresh: bool,
    now: Seq<char>,
    bars: Option<Seq<char>>,
    alive: bool,
)
    ensures
        ({
            let v = screen_of(a, s, files, fresh, now, bars, alive);
            &&& a.pane() == Pane::Browser ==> v.body == browser_rows(files)
            &&& a.pane() == Pane::Queue ==> v.body == queue_rows(s.items)
            &&& a.pane() == Pane::Trove ==> v.body == trove_rows(a.trove)
            &&& a.pane() == Pane::Audio ==> v.body == audio_rows(a) && v.selected is None
            &&& a.pane() == Pane::Browser && a.browser_sel < files.len() ==> v.selected == Some(a.browser_sel as int)
            &&& a.pane() == Pane::Queue && a.queue_sel < s.items.len() ==> v.selected == Some(a.queue_sel as int)
            &&& a.input is Some ==> v.menu.len() == 1 && v.menu[0].last().text == a.input_buf + "█"@
            &&& a.input is None ==> v.menu.len() == 2 && v.menu[0][0].text == "  "@ + menu_text(a.pane())
            &&& a.input is None && a.msg.len() > 0 && fresh ==> v.menu[1].last().text == a.msg
        }),
{
}

/// The audio view shows the output, the configured speaker, and every speaker that was seen, by its
/// name, model, address and volume, marked where it plays.
pub proof fn law_speakers_are_shown(a: AppV, i: int)
    requires
        0 <= i < a.audio.roster.len(),
    ensures
        ({
            let p = a.audio.roster[i];
            let r = audio_rows(a)[2 + i];
            &&& audio_rows(a).len() == a.audio.roster.len() + 3
            &&& audio_rows(a)[0][1].text == a.cfg.audio_output
            &&& audio_rows(a)[1][1].text == a.cfg.audio_speaker
            &&& r[1].text == p.name
            &&& p.state == Some("play"@) ==> r[1].tone == Tone::Green
            &&& p.state != Some("play"@) ==> r[1].tone == Tone::Gray
            &&& p.volume matches Some(n) ==> r[2].text == "  "@ + p.model + "  "@ + p.ip + ("  "@ + dec(n as int) + "%"@)
        }),
{
}

/// The strip shows what plays where the sound is: on the speaker its name, state and volume, here
/// the label of the player, each marked by whether it plays.
pub proof fn law_strip_shows_what_plays(a: AppV, now: Seq<char>, bars: Seq<char>)
    ensures
        a.cfg.audio_output != "heos"@ && a.mpv_label.len() > 0 && now.len() > 0 ==> {
            let w = waves_rows(a, now, Some(bars), true);
            &&& w.len() == 2
            &&& w[0][2].text == a.mpv_label
            &&& w[0][1].text == if a.mpv_paused {
                "❚❚ "@
            } else {
                "▶ "@
            }
            &&& w[1][0].text == "  "@ + bars
        },
        a.cfg.audio_output == "heos"@ && entry_shown(a) is Some ==> {
            let p = entry_shown(a)->0;
            let w = waves_rows(a, now, Some(bars), true);
            &&& p.state == Some("play"@) && p.volume is None ==> w[0][2].text == p.name + " — "@ + "play"@ + ""@
            &&& w[0][1].text == if p.state == Some("play"@) {
                "▶ "@
            } else {
                "❚❚ "@
            }
            &&& w[1][0].text == "  "@ + bars
        },
{
}

/// The versions of a result are offered by their numbers, counted from one, and the newest lines of
/// the log are shown, the newest last.
pub proof fn law_versions_and_log_are_shown(opts: Seq<Seq<char>>, log: Seq<Seq<char>>, i: int)
    ensures
        numbered(opts).len() == opts.len(),
        0 <= i < opts.len() ==> numbered(opts)[i] == dec(i + 1) + " "@ + opts[i],
        log.len() >= 3 ==> log_rows(log).len() == 3,
        log.len() < 3 ==> log_rows(log).len() == log.len(),
        log.len() > 0 ==> log_rows(log).last()[0].text == "  "@ + log.last(),
{
}

/// The title of the screen names the focused view and the output; the prompt says what is asked for.
pub proof fn law_titles_and_prompts(a: AppV)
    ensures
        title_text(Pane::Browser) == "browser"@ && title_text(Pane::Queue) == "queue"@,
        title_text(Pane::Audio) == "audio"@ && title_text(Pane::Trove) == "trove"@,
        a.cfg.audio_output == "heos"@ ==> top_text(a) == " ✦ siren · "@ + title_text(a.pane()) + " · out:"@ + "heos"@ + " ✦ "@,
        a.cfg.audio_output != "heos"@ ==> top_text(a) == " ✦ siren · "@ + title_text(a.pane()) + " · out:"@ + "local"@ + " ✦ "@,
        prompt_text(InputMode::Filter) == "filter"@ && prompt_text(InputMode::SavePl) == "save playlist as"@,
        prompt_text(InputMode::LoadPl) == "load playlist"@ && prompt_text(InputMode::RmPl) == "remove playlist"@,
        prompt_text(InputMode::TroveSearch) == "trove search (kind + words)"@,
{
}

} // verus!
