use siren::config::SirenConfig;
use siren::heos::HeosPlayer;
use siren::json::{parse_or_null, render};
use siren::queue::{new_item, Session, Step};
use siren::trove::{Doc, Source};
use siren::tui::{
    adjust_volume, apply_input, cast_done, cast_path, click_at, cycle_repeat, cycle_speaker, fetched_line, fits_volume, handle_audio,
    handle_browser, handle_key, handle_mouse, handle_queue, handle_trove, is_muted, item_done_line, item_failed_line, level_uri,
    list_loaded, list_removed, list_saved, mute_set, mute_uri, name_of_item, next_level, offered_formats, patch_roster,
    path_name, pause_toggled, playing_shown, poll_mpv, poll_speaker, poll_trove, scroll_by, search_line, show_refresh,
    speaker_entry, speaker_level, stem_name, toggle_shuffle, trove_ask_format, trove_download, volume_set, Act, App, DlMsg,
    InputMode, Key, Mouse, Pane, Polled, TroveEvent, LOG_LINES,
};

fn s(v: &[&str]) -> Vec<String> {
    v.iter().map(|x| x.to_string()).collect()
}

fn app() -> App {
    App::new(&SirenConfig::default())
}

fn heos_app() -> App {
    let mut c = SirenConfig::default();
    c.set("audio_output", "heos").unwrap();
    App::new(&c)
}

fn press(a: &mut App, t: &mut Session, key: Key, files: &Vec<String>) -> Act {
    handle_key(a, t, key, false, files, "", None)
}

fn doc(ident: &str) -> Doc {
    Doc {
        identifier: ident.to_string(),
        title: "T".to_string(),
        creator: "".to_string(),
        year: "".to_string(),
        mediatype: "audio".to_string(),
        downloads: "".to_string(),
        source: Source::Archive,
    }
}

fn player(name: &str) -> HeosPlayer {
    HeosPlayer {
        name: name.to_string(),
        pid: 7,
        ip: "10.0.0.5".to_string(),
        model: "M".to_string(),
        network: "wifi".to_string(),
        state: Some("stop".to_string()),
        volume: Some(10),
    }
}

#[test]
fn the_views_go_round() {
    let mut a = app();
    let mut t = Session::new();
    let files = s(&[]);
    a.spk_force = false;
    let mut seen = Vec::new();
    for _ in 0..4 {
        seen.push(a.pane().title());
        press(&mut a, &mut t, Key::Tab, &files);
        if a.pane() == Pane::Audio {
            assert!(a.spk_force);
        }
    }
    assert_eq!(seen, vec!["browser", "queue", "audio", "trove"]);
    assert_eq!(a.focus, 0);
    press(&mut a, &mut t, Key::BackTab, &files);
    assert_eq!(a.focus, 3);
    a.spk_force = false;
    press(&mut a, &mut t, Key::BackTab, &files);
    assert!(a.pane() == Pane::Audio && a.spk_force);
    press(&mut a, &mut t, Key::Tab, &files);
    press(&mut a, &mut t, Key::Tab, &files);
    assert_eq!(a.focus, 0);
    assert!(a.pane().menu().starts_with("enter play"));
}

#[test]
fn an_extreme_volume_stops_only_its_keys() {
    let mut a = app();
    a.mpv_vol = i64::MAX;
    assert!(!fits_volume(&a, Key::Char('+')) && fits_volume(&a, Key::Char('-')) && fits_volume(&a, Key::Tab));
    a.mpv_vol = i64::MIN;
    assert!(fits_volume(&a, Key::Char('=')) && !fits_volume(&a, Key::Char('_')));
}

#[test]
fn keys_that_work_everywhere() {
    let mut a = app();
    let mut t = Session::new();
    let files = s(&[]);
    assert!(matches!(press(&mut a, &mut t, Key::Char('n'), &files), Act::Skip(true)));
    assert!(matches!(press(&mut a, &mut t, Key::Char('b'), &files), Act::Skip(false)));
    assert!(matches!(press(&mut a, &mut t, Key::Char('q'), &files), Act::Quit));
    assert!(matches!(press(&mut a, &mut t, Key::Esc, &files), Act::Quit));
    assert!(matches!(press(&mut a, &mut t, Key::Char('='), &files), Act::Mpv(j) if render(&j) == "[\"set_property\",\"volume\",80]"));
    assert_eq!((a.mpv_vol, a.msg.as_str()), (80, "volume → 80%"));
    assert!(matches!(press(&mut a, &mut t, Key::Char('_'), &files), Act::Mpv(_)));
    assert_eq!(a.mpv_vol, 75);
    let mut h = heos_app();
    assert!(matches!(press(&mut h, &mut t, Key::Char('-'), &files), Act::Volume(-5)));
}

#[test]
fn the_volume_stays_in_its_range() {
    let mut a = app();
    a.mpv_vol = 148;
    adjust_volume(&mut a, 5);
    assert_eq!(a.mpv_vol, 150);
    a.mpv_vol = 2;
    adjust_volume(&mut a, -5);
    assert_eq!(a.mpv_vol, 0);
    assert_eq!((next_level(98, 5), next_level(3, -5), next_level(50, 5)), (100, 0, 55));
}

#[test]
fn esc_closes_the_format_row_first() {
    let mut a = app();
    let mut t = Session::new();
    a.focus = 3;
    a.trove.docs = vec![doc("x")];
    assert!(matches!(trove_ask_format(&mut a, 0), Act::Formats(0, d) if d.identifier == "x"));
    assert!(a.trove.fmt_pending);
    assert!(matches!(press(&mut a, &mut t, Key::Esc, &s(&[])), Act::Nothing));
    assert!(a.trove.fmt_for.is_none());
    assert!(matches!(press(&mut a, &mut t, Key::Esc, &s(&[])), Act::Quit));
    assert!(matches!(trove_ask_format(&mut a, 5), Act::Nothing));
}

#[test]
fn the_browser_plays_casts_and_queues() {
    let mut a = app();
    let mut t = Session::new();
    let files = s(&["/m/one.mp3", "/m/two.mp3"]);
    handle_browser(&mut a, &mut t, Key::Char('j'), &files);
    handle_browser(&mut a, &mut t, Key::Down, &files);
    assert_eq!(a.browser_sel, 1);
    assert!(matches!(handle_browser(&mut a, &mut t, Key::Enter, &files), Act::PlayFile(p) if p == "/m/two.mp3"));
    assert!(matches!(handle_browser(&mut a, &mut t, Key::Char('c'), &files), Act::Cast(p) if p == "/m/two.mp3"));
    match handle_browser(&mut a, &mut t, Key::Char('a'), &files) {
        Act::Steps(v) => assert!(v.len() == 1 && matches!(v[0], Step::Save)),
        _ => panic!("not queued"),
    }
    assert_eq!(a.msg, "queued two.mp3");
    assert_eq!((t.queue.items[0].path.as_str(), t.queue.items[0].display.as_str()), ("/m/two.mp3", "two"));
    handle_browser(&mut a, &mut t, Key::Char('k'), &files);
    assert_eq!(a.browser_sel, 0);
    let mut h = heos_app();
    assert!(matches!(handle_browser(&mut h, &mut t, Key::Char(' '), &files), Act::Cast(p) if p == "/m/one.mp3"));
    assert!(matches!(handle_browser(&mut h, &mut t, Key::Char('o'), &files), Act::PlayFile(p) if p == "/m/one.mp3"));
    assert!(matches!(handle_browser(&mut h, &mut t, Key::Enter, &s(&[])), Act::Nothing));
    for (k, m) in [('/', InputMode::Filter), ('S', InputMode::SavePl), ('L', InputMode::LoadPl), ('R', InputMode::RmPl)] {
        handle_browser(&mut h, &mut t, Key::Char(k), &files);
        assert!(h.input == Some(m));
    }
}

#[test]
fn the_queue_is_edited() {
    let mut a = app();
    let mut t = Session::new();
    t.queue.items = vec![new_item("/a.mp3"), new_item("/b.mp3")];
    handle_queue(&mut a, &mut t, Key::Down, "");
    assert!(matches!(handle_queue(&mut a, &mut t, Key::Enter, ""), Act::PlayQueue(1, true)));
    match handle_queue(&mut a, &mut t, Key::Char('d'), "") {
        Act::Steps(v) => assert!(matches!(v[0], Step::Save)),
        _ => panic!("not removed"),
    }
    assert_eq!((a.queue_sel, a.msg.as_str(), t.queue.items.len()), (0, "Removed: b", 1));
    handle_queue(&mut a, &mut t, Key::Char('c'), "");
    assert_eq!((a.msg.as_str(), t.queue.items.len()), ("Queue cleared.", 0));
    assert!(matches!(handle_queue(&mut a, &mut t, Key::Char('d'), ""), Act::Nothing));
    let mut it = new_item("/x/y.mp3");
    it.display = "".to_string();
    assert_eq!(name_of_item(&it), "y");
}

#[test]
fn the_audio_view() {
    let mut a = app();
    let mut t = Session::new();
    let none = s(&[]);
    assert!(matches!(handle_audio(&mut a, &t, Key::Char('p'), &none, "", None), Act::Mpv(j) if render(&j) == "[\"cycle\",\"pause\"]"));
    assert!(matches!(handle_audio(&mut a, &t, Key::Char('o'), &none, "", None), Act::SaveConfig));
    assert_eq!((a.cfg.audio_output.as_str(), a.msg.as_str()), ("heos", "output → heos"));
    assert!(matches!(handle_audio(&mut a, &t, Key::Char(' '), &none, "", None), Act::TogglePause));
    handle_audio(&mut a, &t, Key::Char('o'), &none, "", None);
    assert_eq!(a.cfg.audio_output, "local");
    assert!(matches!(handle_audio(&mut a, &t, Key::Char('S'), &none, "", None), Act::Shuffle));
    assert!(matches!(handle_audio(&mut a, &t, Key::Char('r'), &none, "", None), Act::Repeat));
    assert!(matches!(handle_audio(&mut a, &t, Key::Char('s'), &none, "", None), Act::CycleSpeaker));
    assert!(matches!(handle_audio(&mut a, &t, Key::Char('v'), &none, "", None), Act::Refresh));
    assert!(matches!(handle_audio(&mut a, &t, Key::Char('m'), &none, "", None), Act::Mute));
    assert!(matches!(handle_audio(&mut a, &t, Key::Char('t'), &none, "", None), Act::Nothing));
    assert_eq!(a.msg, "nothing to cast");
    assert!(matches!(handle_audio(&mut a, &t, Key::Char('t'), &none, "", Some("/top")), Act::Cast(p) if p == "/top"));
    assert!(matches!(handle_audio(&mut a, &t, Key::Char('t'), &none, "/cur", Some("/top")), Act::Cast(p) if p == "/cur"));
    t.queue.items = vec![new_item("/q")];
    assert!(matches!(handle_audio(&mut a, &t, Key::Char('t'), &none, "/cur", None), Act::Cast(p) if p == "/q"));
    assert!(matches!(handle_audio(&mut a, &t, Key::Char('t'), &s(&["/f"]), "/cur", None), Act::Cast(p) if p == "/f"));
}

#[test]
fn a_line_of_input_takes_every_key() {
    let mut a = app();
    let mut t = Session::new();
    let files = s(&["/a"]);
    press(&mut a, &mut t, Key::Char('/'), &files);
    for c in ['q', 'n', 'é'] {
        press(&mut a, &mut t, Key::Char(c), &files);
    }
    assert_eq!(a.input_buf, "qné");
    press(&mut a, &mut t, Key::Backspace, &files);
    assert_eq!(a.input_buf, "qn");
    press(&mut a, &mut t, Key::Tab, &files);
    assert_eq!(a.focus, 0);
    handle_key(&mut a, &mut t, Key::Char('u'), true, &files, "", None);
    assert_eq!(a.input_buf, "");
    press(&mut a, &mut t, Key::Backspace, &files);
    press(&mut a, &mut t, Key::Char('x'), &files);
    a.browser_sel = 1;
    assert!(matches!(press(&mut a, &mut t, Key::Enter, &files), Act::Nothing));
    assert_eq!((a.filter.as_str(), a.browser_sel), ("x", 0));
    assert!(a.input.is_none());
    press(&mut a, &mut t, Key::Char('S'), &files);
    press(&mut a, &mut t, Key::Esc, &files);
    assert!(a.input.is_none());
}

#[test]
fn lines_of_input_are_applied() {
    let mut a = app();
    assert!(matches!(apply_input(&mut a, InputMode::SavePl, "  "), Act::Nothing));
    assert_eq!(a.msg, "need a name");
    assert!(matches!(apply_input(&mut a, InputMode::SavePl, " x "), Act::SaveList(n) if n == "x"));
    assert!(matches!(apply_input(&mut a, InputMode::LoadPl, " x "), Act::LoadList(n) if n == "x"));
    assert!(matches!(apply_input(&mut a, InputMode::RmPl, " x "), Act::RemoveList(n) if n == "x"));
    assert!(matches!(apply_input(&mut a, InputMode::TroveSearch, " "), Act::Nothing));
    a.trove.docs = vec![doc("x")];
    a.trove.sel = 4;
    assert!(matches!(apply_input(&mut a, InputMode::TroveSearch, " jazz duo "), Act::Search(q) if q == "jazz duo"));
    assert!(a.trove.searching && a.trove.docs.is_empty());
    assert_eq!((a.trove.sel, a.trove.query.as_str()), (0, "jazz duo"));
}

#[test]
fn one_download_runs_at_a_time() {
    let mut a = app();
    a.trove.docs = vec![doc("x"), doc("y")];
    assert!(matches!(handle_trove(&mut a, Key::Char('3')), Act::Nothing));
    match handle_trove(&mut a, Key::Char('a')) {
        Act::Download(d, f) => assert_eq!((d.len(), f.as_deref()), (2, Some("mp3"))),
        _ => panic!("no download"),
    }
    assert_eq!(a.trove.log, s(&["↓ 2 item(s) [mp3]…"]));
    assert!(matches!(trove_download(&mut a, &vec![0], None), Act::Nothing));
    assert_eq!(a.msg, "download already running");
    a.trove.dl_active = false;
    a.trove.fmt = "all".to_string();
    match handle_trove(&mut a, Key::Char('2')) {
        Act::Download(d, f) => {
            assert_eq!(d[0].identifier, "y");
            assert!(f.is_none());
        }
        _ => panic!("no download"),
    }
    a.trove.dl_active = false;
    assert!(matches!(trove_download(&mut a, &vec![9], None), Act::Nothing));
    assert!(!a.trove.dl_active);
}

#[test]
fn formats_are_picked_by_number() {
    let mut a = app();
    a.trove.docs = vec![doc("x"), doc("y")];
    handle_trove(&mut a, Key::Char('j'));
    assert!(matches!(handle_trove(&mut a, Key::Enter), Act::Formats(1, _)));
    poll_trove(&mut a, TroveEvent::Formats(1, offered_formats(&s(&["mp3", "flac"]))));
    assert_eq!(a.trove.fmt_opts, s(&["mp3", "flac", "all"]));
    assert!(matches!(handle_trove(&mut a, Key::Char('4')), Act::Nothing));
    match handle_trove(&mut a, Key::Char('3')) {
        Act::Download(d, f) => assert_eq!((d[0].identifier.as_str(), f.as_deref()), ("y", Some("all"))),
        _ => panic!("no download"),
    }
    assert!(a.trove.fmt_for.is_none());
}

#[test]
fn session_formats_go_round() {
    let mut a = app();
    let mut seen = Vec::new();
    for _ in 0..7 {
        handle_trove(&mut a, Key::Char('f'));
        seen.push(a.trove.fmt.clone());
    }
    assert_eq!(seen, s(&["flac", "ogg", "wav", "opus", "m4a", "all", "mp3"]));
    assert_eq!(a.msg, "trove format → mp3");
    handle_trove(&mut a, Key::Char('s'));
    assert!(a.input == Some(InputMode::TroveSearch));
}

#[test]
fn searches_come_back() {
    let mut a = app();
    poll_trove(&mut a, TroveEvent::Found(vec![doc("x")], 9));
    assert!(a.trove.docs.is_empty());
    apply_input(&mut a, InputMode::TroveSearch, "x");
    poll_trove(&mut a, TroveEvent::Found(vec![doc("x")], 9));
    assert_eq!((a.msg.as_str(), a.trove.total, a.trove.searching), ("1 hits (9 total)", 9, false));
    apply_input(&mut a, InputMode::TroveSearch, "x");
    poll_trove(&mut a, TroveEvent::SearchFailed("down".to_string()));
    assert_eq!(a.msg, "search failed: down");
    apply_input(&mut a, InputMode::TroveSearch, "x");
    poll_trove(&mut a, TroveEvent::SearchLost);
    assert!(!a.trove.searching);
    a.trove.docs = vec![doc("x")];
    trove_ask_format(&mut a, 0);
    poll_trove(&mut a, TroveEvent::FormatsLost);
    assert!(a.trove.fmt_for.is_none() && !a.trove.fmt_pending);
}

#[test]
fn progress_replaces_its_line() {
    let mut a = app();
    a.trove.docs = vec![doc("x")];
    trove_download(&mut a, &vec![0], None);
    let tell = |a: &mut App, f: &str, p: Option<&str>| {
        poll_trove(a, TroveEvent::Download(DlMsg::Progress(f.to_string(), 1, 2, p.map(|x| x.to_string()))))
    };
    tell(&mut a, "f", None);
    tell(&mut a, "f", Some(" 50%"));
    assert_eq!(a.trove.log, s(&["↓ 1 item(s) [mp3]…", "↓ 1/2 f   50%"]));
    tell(&mut a, "g", None);
    assert_eq!(a.trove.log.last().unwrap(), "↓ 1/2 g    ?");
    assert_eq!(a.trove.log.len(), 3);
    for i in 0..10 {
        poll_trove(&mut a, TroveEvent::Download(DlMsg::Line(format!("{i}"))));
    }
    assert_eq!(a.trove.log.len(), LOG_LINES);
    assert_eq!(a.trove.log, s(&["4", "5", "6", "7", "8", "9"]));
    poll_trove(&mut a, TroveEvent::Download(DlMsg::Finished));
    assert!(!a.trove.dl_active);
    assert_eq!(a.msg, "download finished — see trove log");
    trove_download(&mut a, &vec![0], None);
    poll_trove(&mut a, TroveEvent::DownloadLost);
    assert!(!a.trove.dl_active);
}

#[test]
fn lines_of_a_download() {
    assert_eq!(fetched_line(1, 2, "a", true), "↓ 1/2 a");
    assert_eq!(fetched_line(1, 2, "a", false), "↓ 1/2 a FAILED");
    assert_eq!(item_done_line(1, 2, "i", "/d"), "Done 1/2 i → /d");
    assert_eq!(item_failed_line("i", "no"), "i: no");
    assert!(search_line("music lofi").contains("mediatype%3A%28audio%29"));
    assert!(search_line("lofi").contains("&rows=10&page=1&"));
}

#[test]
fn speakers_are_looked_for() {
    let mut a = app();
    assert!(poll_speaker(&mut a, Polled::Nothing, false));
    assert!(a.spk_pending && !a.spk_force);
    assert!(!poll_speaker(&mut a, Polled::Nothing, true));
    assert!(!poll_speaker(&mut a, Polled::Seen(vec![player("Office")], true), false));
    assert_eq!((a.audio.roster.len(), a.audio.dlna_ok, a.spk_pending), (1, true, false));
    assert!(poll_speaker(&mut a, Polled::Nothing, true));
    assert!(!poll_speaker(&mut a, Polled::Lost, false));
    assert!(!a.spk_pending);
    show_refresh(&mut a);
    assert_eq!(a.msg, "1 speaker(s), dlna ok");
}

#[test]
fn the_next_speaker_is_taken() {
    let mut a = app();
    assert!(matches!(cycle_speaker(&mut a), Act::Nothing));
    assert_eq!(a.msg, "no speakers found");
    a.audio.roster = vec![player("Cave"), player("Office")];
    a.cfg.audio_speaker = "cave".to_string();
    assert!(matches!(cycle_speaker(&mut a), Act::SaveConfig));
    assert_eq!((a.cfg.audio_speaker.as_str(), a.msg.as_str()), ("Office", "speaker → Office"));
    cycle_speaker(&mut a);
    assert_eq!(a.cfg.audio_speaker, "Cave");
}

#[test]
fn commands_show_on_the_roster() {
    let mut a = app();
    a.audio.roster = vec![player("Cave"), player("Office")];
    a.cfg.audio_speaker = "office".to_string();
    patch_roster(&mut a, Some("play"), Some(33));
    assert_eq!((a.audio.roster[1].state.as_deref(), a.audio.roster[1].volume), (Some("play"), Some(33)));
    assert_eq!(a.audio.roster[0].volume, Some(10));
    assert_eq!(speaker_entry(&a).unwrap().name, "Office");
    a.cfg.audio_speaker = "den".to_string();
    assert_eq!(speaker_entry(&a).unwrap().name, "Cave");
    a.cfg.audio_speaker = "cave".to_string();
    volume_set(&mut a, Some("Cave"), 40, true);
    assert_eq!((a.audio.roster[0].volume, a.msg.as_str()), (Some(40), "Cave volume → 40%"));
    volume_set(&mut a, Some("Cave"), 50, false);
    assert_eq!(a.msg, "volume failed");
    volume_set(&mut a, None, 50, true);
    assert_eq!(a.msg, "no speaker found");
    pause_toggled(&mut a, Some("Cave"), "pause");
    assert_eq!((a.audio.roster[0].state.as_deref(), a.msg.as_str()), (Some("pause"), "Cave → pause"));
    a.spk_force = false;
    mute_set(&mut a, Some("Cave"), true, true);
    assert!(a.spk_force);
    assert_eq!(a.msg, "Cave mute → on");
    mute_set(&mut a, None, true, true);
    assert_eq!(a.msg, "no speaker found");
    assert!(!cast_path(&mut a, "/m/x.mp3", None));
    assert_eq!(a.msg, "no speaker found — try v (refresh)");
    assert!(cast_path(&mut a, "/m/x.mp3", Some("Cave")));
    assert_eq!(a.msg, "casting x.mp3 → Cave…");
    cast_done(&mut a, "/m/x.mp3", "Cave", None);
    assert_eq!((a.audio.roster[0].state.as_deref(), a.msg.as_str()), (Some("play"), "▶ x.mp3 on Cave"));
    cast_done(&mut a, "/m/x.mp3", "Cave", Some("no"));
    assert_eq!(a.msg, "cast failed: no");
}

#[test]
fn speaker_replies_are_read() {
    let r = parse_or_null("{\"heos\":{\"message\":\"pid=7&level=42\"}}");
    let m = parse_or_null("{\"heos\":{\"message\":\"pid=7&state=on\"}}");
    assert_eq!(speaker_level(&vec![r]), 42);
    assert_eq!(speaker_level(&vec![]), 20);
    assert!(is_muted(&vec![m]));
    assert!(!is_muted(&vec![parse_or_null("{}")]));
    assert_eq!(level_uri(7), "heos://player/get_volume?pid=7");
    assert_eq!(mute_uri(7), "heos://player/get_mute?pid=7");
}

#[test]
fn shuffle_and_repeat() {
    let mut a = app();
    assert_eq!(render(&toggle_shuffle(&mut a, false)), "[\"set_property\",\"shuffle\",true]");
    assert_eq!(a.msg, "shuffle on");
    let (p, f) = cycle_repeat(&mut a, Some("no"), None);
    assert_eq!(a.msg, "repeat all");
    assert_eq!(render(&p), "[\"set_property\",\"loop-playlist\",\"inf\"]");
    assert_eq!(render(&f), "[\"set_property\",\"loop-file\",\"no\"]");
    cycle_repeat(&mut a, Some("inf"), Some("no"));
    assert_eq!(a.msg, "repeat track");
    cycle_repeat(&mut a, Some("no"), Some("yes"));
    assert_eq!(a.msg, "repeat off");
}

#[test]
fn the_player_here_is_shown() {
    let mut a = app();
    poll_mpv(&mut a, Some(("T", true, Some(40))));
    assert_eq!((a.mpv_label.as_str(), a.mpv_paused, a.mpv_vol), ("T", true, 40));
    poll_mpv(&mut a, Some(("T", false, None)));
    assert_eq!(a.mpv_vol, 75);
    a.mpv_vol = 60;
    poll_mpv(&mut a, None);
    assert_eq!((a.mpv_label.as_str(), a.mpv_paused, a.mpv_vol), ("", false, 60));
}

#[test]
fn playlists_are_reported() {
    let mut a = app();
    let mut t = Session::new();
    list_saved(&mut a, "x", true);
    assert_eq!(a.msg, "Saved playlist: x");
    list_saved(&mut a, "x", false);
    assert_eq!(a.msg, "save failed");
    list_removed(&mut a, "x", true);
    assert_eq!(a.msg, "Deleted playlist: x");
    list_removed(&mut a, "x", false);
    assert_eq!(a.msg, "Playlist not found: x");
    assert!(!list_loaded(&mut a, &mut t, "y", vec![]));
    assert_eq!(a.msg, "Playlist not found: y");
    assert!(list_loaded(&mut a, &mut t, "y", vec![new_item("/a")]));
    assert_eq!(t.queue.items.len(), 1);
    playing_shown(&mut a, Some("y"));
    assert_eq!(a.msg, "Playing playlist: y");
    playing_shown(&mut a, None);
    assert_eq!(a.msg, "playing from queue");
    assert_eq!((path_name("/a/b.mp3"), stem_name("/a/b.mp3")), ("b.mp3".to_string(), "b".to_string()));
}

#[test]
fn the_wheel_scrolls() {
    let mut a = app();
    scroll_by(&mut a, true, 2, 0);
    scroll_by(&mut a, true, 2, 0);
    assert_eq!(a.browser_sel, 1);
    scroll_by(&mut a, false, 2, 0);
    scroll_by(&mut a, false, 2, 0);
    assert_eq!(a.browser_sel, 0);
    scroll_by(&mut a, true, 0, 0);
    assert_eq!(a.browser_sel, 0);
    let (drawn, act) = handle_mouse(&mut a, Mouse::Wheel(true), 30, &s(&["/a", "/b"]), 0);
    assert!(drawn && matches!(act, Act::Nothing));
    assert_eq!(a.browser_sel, 1);
    a.cfg.mouse = false;
    assert!(!handle_mouse(&mut a, Mouse::Wheel(false), 30, &s(&["/a", "/b"]), 0).0);
    assert_eq!(a.browser_sel, 1);
}

#[test]
fn clicks_select_and_act() {
    let mut a = app();
    let files = s(&["/a", "/b"]);
    assert!(!click_at(&mut a, 0, 30, false, &files, 0).0);
    assert!(click_at(&mut a, 2, 30, false, &files, 0).0);
    assert_eq!(a.browser_sel, 1);
    assert!(matches!(click_at(&mut a, 1, 30, true, &files, 0), (true, Act::PlayFile(p)) if p == "/a"));
    assert!(!click_at(&mut a, 3, 30, false, &files, 0).0);
    assert!(!click_at(&mut a, 1, 12, false, &files, 0).0);
    assert!(!click_at(&mut a, 1, 5, false, &files, 0).0);
    a.focus = 1;
    assert!(matches!(click_at(&mut a, 2, 30, true, &files, 2), (true, Act::PlayQueue(1, true))));
    a.focus = 3;
    a.trove.query = "q".to_string();
    a.trove.docs = vec![doc("x"), doc("y")];
    assert!(!click_at(&mut a, 1, 30, false, &files, 0).0);
    assert!(click_at(&mut a, 4, 30, false, &files, 0).0);
    assert_eq!(a.trove.sel, 1);
    assert!(matches!(click_at(&mut a, 3, 30, true, &files, 0), (true, Act::Formats(0, _))));
}
