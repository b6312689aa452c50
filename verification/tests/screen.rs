use siren::config::SirenConfig;
use siren::heos::HeosPlayer;
use siren::queue::{new_item, Session};
use siren::screen::{draw, draw_audio, draw_browser, draw_menu, draw_queue, draw_trove, top_title, waves_lines, Row, Tone};
use siren::trove::{Doc, Source};
use siren::tui::{App, InputMode};

fn s(v: &[&str]) -> Vec<String> {
    v.iter().map(|x| x.to_string()).collect()
}

fn text(r: &Row) -> String {
    r.runs.iter().map(|x| x.text.as_str()).collect()
}

fn texts(v: &[Row]) -> Vec<String> {
    v.iter().map(text).collect()
}

fn app() -> App {
    App::new(&SirenConfig::default())
}

fn heos_app() -> App {
    let mut c = SirenConfig::default();
    c.set("audio_output", "heos").unwrap();
    App::new(&c)
}

fn doc(ident: &str) -> Doc {
    Doc {
        identifier: ident.to_string(),
        title: "T".to_string(),
        creator: "C".to_string(),
        year: "".to_string(),
        mediatype: "audio".to_string(),
        downloads: "".to_string(),
        source: Source::Archive,
    }
}

#[test]
fn titles_say_where_the_audio_goes() {
    assert_eq!(top_title(&app()), " ✦ siren · browser · out:local ✦ ");
    assert_eq!(top_title(&heos_app()), " ✦ siren · browser · out:heos ✦ ");
}

#[test]
fn the_menu_shows_hint_message_or_input() {
    let mut a = app();
    let (title, rows) = draw_menu(&a, true, 3, 4);
    assert_eq!(title, " ✦ browser menu ✦ ");
    assert_eq!(text(&rows[1]), "  3 tracks · tab cycle · q quit");
    a.say("hello".to_string());
    assert_eq!(text(&draw_menu(&a, true, 3, 4).1[1]), "  hello");
    assert!(draw_menu(&a, true, 3, 4).1[1].runs[1].tone == Tone::Cyan);
    a.focus = 1;
    assert_eq!(text(&draw_menu(&a, false, 3, 4).1[1]), "  4 queued · tab cycle · q quit");
    a.focus = 2;
    assert_eq!(text(&draw_menu(&a, false, 3, 4).1[1]), "  out:local · spk:Vanguarda Office · tab cycle · q quit");
    a.focus = 3;
    assert_eq!(text(&draw_menu(&a, false, 3, 4).1[1]), "  s to search · fmt:mp3 · tab cycle · q quit");
    a.input = Some(InputMode::SavePl);
    a.input_buf = "mi".to_string();
    let (title, rows) = draw_menu(&a, true, 3, 4);
    assert_eq!((title.as_str(), texts(&rows)), (" ✦ save playlist as ✦ ", s(&["  mi█"])));
}

#[test]
fn lists_show_their_selection() {
    let mut a = app();
    let mut t = Session::new();
    a.browser_sel = 9;
    let (rows, sel) = draw_browser(&a, &s(&["/m/one.mp3", "/m/two.mp3"]));
    assert_eq!((texts(&rows), sel), (s(&["  one", "  two"]), Some(1)));
    assert_eq!(draw_browser(&a, &s(&[])).1, None);
    let (rows, sel) = draw_queue(&a, &t);
    assert_eq!((texts(&rows), sel), (s(&["  (queue empty)"]), None));
    t.queue.items = vec![new_item("/a.mp3"), new_item("/b.mp3")];
    let (rows, sel) = draw_queue(&a, &t);
    assert_eq!((texts(&rows), sel), (s(&["▶   1. a", "    2. b"]), Some(0)));
}

#[test]
fn the_strip_shows_what_plays() {
    let mut a = app();
    assert_eq!(texts(&waves_lines(&a, "", None, false)), s(&["  idle — no mpv"]));
    assert_eq!(texts(&waves_lines(&a, "", None, true)), s(&["  ▶ — silence —", "  —"]));
    a.mpv_label = "T".to_string();
    a.mpv_paused = true;
    assert_eq!(texts(&waves_lines(&a, "/t", None, true)), s(&["  ❚❚ T", "  analyzing…"]));
    assert_eq!(texts(&waves_lines(&a, "/t", Some("▁▂"), true))[1], "  ▁▂");
    let mut h = heos_app();
    assert_eq!(
        texts(&waves_lines(&h, "", None, true)),
        s(&["  heos → Vanguarda Office", "  no speaker seen — v in audio view"])
    );
    h.audio.roster = vec![HeosPlayer {
        name: "Office".to_string(),
        pid: 7,
        ip: "10.0.0.5".to_string(),
        model: "M".to_string(),
        network: "wifi".to_string(),
        state: Some("play".to_string()),
        volume: Some(30),
    }];
    assert_eq!(texts(&waves_lines(&h, "", Some("▁"), true)), s(&["  ▶ Office — play  30%", "  ▁"]));
    let rows = draw_audio(&h);
    assert_eq!(
        texts(&rows),
        s(&[
            "  output   heos   (o toggle)",
            "  speaker  Vanguarda Office   (s cycle · v refresh)",
            "  ▶ Office  M  10.0.0.5  30%",
            "  dlna down   (t test-cast · m mute · +/- vol)",
        ])
    );
    assert!(rows[0].runs[1].tone == Tone::Strong);
    h.audio.roster[0].state = None;
    assert_eq!(texts(&waves_lines(&h, "", None, true))[0], "  ❚❚ Office — ?  30%");
    h.audio.roster = Vec::new();
    assert_eq!(texts(&draw_audio(&h))[2], "  no speakers seen — press v");
}

#[test]
fn the_trove_view_is_drawn() {
    let mut a = app();
    assert_eq!(texts(&draw_trove(&a).0), s(&["  press s to search free & legal music"]));
    a.trove.query = "q".to_string();
    assert_eq!(texts(&draw_trove(&a).0), s(&["  0 hits (0 total) for “q”", "  no results — s to search again"]));
    a.trove.searching = true;
    assert_eq!(texts(&draw_trove(&a).0)[1], "  searching archive.org…");
    a.trove.searching = false;
    a.trove.docs = vec![doc("x"), doc("y")];
    a.trove.total = 7;
    a.trove.sel = 1;
    a.trove.log = s(&["1", "2", "3", "4"]);
    a.trove.fmt_for = Some(0);
    let (rows, sel) = draw_trove(&a);
    assert_eq!(
        texts(&rows),
        s(&[
            "  2 hits (7 total) for “q”",
            "   1.  T",
            "          C · audio  x",
            "   2.  T",
            "          C · audio  y",
            "  version? x — reading versions…",
            "  2",
            "  3",
            "  4",
        ])
    );
    assert_eq!(sel, Some(3));
    a.trove.fmt_opts = s(&["mp3", "all"]);
    assert_eq!(texts(&draw_trove(&a).0)[5], "  version? x — 1 mp3 · 2 all");
}

#[test]
fn the_screen_shows_the_focused_view() {
    let mut a = app();
    let t = Session::new();
    let d = draw(&a, &t, &s(&["/m/one.mp3"]), false, "", None, false);
    assert_eq!((texts(&d.body), d.selected), (s(&["  one"]), Some(0)));
    assert_eq!(texts(&d.waves), s(&["  idle — no mpv"]));
    assert_eq!(d.menu_title, " ✦ browser menu ✦ ");
    a.focus = 2;
    let d = draw(&a, &t, &s(&["/m/one.mp3"]), false, "", None, false);
    assert_eq!(d.selected, None);
    assert_eq!(d.top_title, " ✦ siren · audio · out:local ✦ ");
}
