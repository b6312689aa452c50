use siren::cli::{cmd_audio, cmd_config, cmd_speaker_queue, heos_target, Ask, AudioCmd, Known, Report, Speaker, Verb};
use siren::commands::{
    cached_json, cmd_cast, cmd_now, cmd_now_cached, cmd_play, cmd_playlist, cmd_playlist_load, cmd_queue, cmd_random,
    cmd_resolve, cmd_sleep, cmd_status, cmd_transport, cmd_trove, list_playlists, now_snapshot, play_paths_heos,
    report_deleted, report_saved, shellexpand, sleep_args, sleep_list_args, sleep_off_report, sleep_report, sleep_reset_args, sleep_status,
    sleep_stop_args, trove_format_arg, ListCmd, Load, LocalNow, QueueCmd, SleepCmd, TroveCmd,
};
use siren::config::SirenConfig;
use siren::heos::QueueEntry;
use siren::json::render;
use siren::queue::{new_item, Session};

fn s(v: &[&str]) -> Vec<String> {
    v.iter().map(|x| x.to_string()).collect()
}

fn local() -> SirenConfig {
    SirenConfig::default()
}

fn heos() -> SirenConfig {
    let mut c = SirenConfig::default();
    c.set("audio_output", "heos").unwrap();
    c
}

fn speaker() -> Option<Option<Speaker>> {
    Some(Some(Speaker { ip: "10.0.0.5".to_string(), pid: 7, name: "Office".to_string() }))
}

fn report(a: Ask) -> Report {
    match a {
        Ask::End(r) => r,
        _ => panic!("not over"),
    }
}

fn out(a: Ask) -> (Vec<String>, i32) {
    let r = report(a);
    assert!(r.err.is_empty());
    (r.out, r.code)
}

fn err(a: Ask) -> (Vec<String>, i32) {
    let r = report(a);
    assert!(r.out.is_empty());
    (r.err, r.code)
}

fn entry(qid: i64, song: &str, artist: &str) -> QueueEntry {
    QueueEntry {
        qid,
        song: song.to_string(),
        artist: artist.to_string(),
        album: "".to_string(),
        mid: "".to_string(),
    }
}

#[test]
fn config_is_listed_read_and_set() {
    let c = local();
    let mut k = Known::nothing();
    let (lines, code) = out(cmd_config(&c, None, None, None, &k));
    assert_eq!((lines.len(), code), (11, 0));
    assert_eq!(lines[0], "default_volume = 75");
    assert_eq!(out(cmd_config(&c, Some("get"), Some("mouse"), None, &k)), (s(&["mouse = on"]), 0));
    assert_eq!(err(cmd_config(&c, Some("get"), Some("x"), None, &k)), (s(&["unknown key: x"]), 1));
    assert_eq!(err(cmd_config(&c, Some("get"), None, None, &k)), (s(&["usage: siren config get <key>"]), 1));
    assert_eq!(err(cmd_config(&c, Some("set"), Some("x"), None, &k)), (s(&["usage: siren config set <key> <value>"]), 1));
    assert_eq!(
        err(cmd_config(&c, Some("set"), Some("default_volume"), Some("999"), &k)),
        (s(&["default_volume: expects 0-150"]), 1)
    );
    assert_eq!(
        err(cmd_config(&c, Some("put"), None, None, &k)),
        (s(&["usage: siren config [get|set] <key> [value] (got put)"]), 1)
    );
    match cmd_config(&c, Some("set"), Some("mouse"), Some("off"), &k) {
        Ask::Save(n) => assert!(!n.mouse),
        _ => panic!("not stored"),
    }
    k.saved = Some(None);
    assert_eq!(out(cmd_config(&c, Some("set"), Some("mouse"), Some("off"), &k)), (s(&["mouse = off"]), 0));
    k.saved = Some(Some("disk full".to_string()));
    assert_eq!(err(cmd_config(&c, Some("set"), Some("mouse"), Some("off"), &k)), (s(&["save failed: disk full"]), 1));
}

#[test]
fn audio_status_is_shown() {
    let c = local();
    let mut k = Known::nothing();
    assert!(matches!(cmd_audio(&c, &AudioCmd::Status, None, &k), Ask::Speaker(Some(h)) if h == "Vanguarda Office"));
    k.speaker = Some(None);
    assert_eq!(out(cmd_audio(&c, &AudioCmd::Status, None, &k)).0[2], "live:    no speaker found");
    k.speaker = speaker();
    assert!(matches!(cmd_audio(&c, &AudioCmd::Status, None, &k), Ask::Status));
    k.status = Some((Some("play".to_string()), Some(30)));
    assert_eq!(
        out(cmd_audio(&c, &AudioCmd::Status, None, &k)).0,
        s(&["output:  local", "speaker: Vanguarda Office", "live:    Office (10.0.0.5) state=play vol=30%"])
    );
    k.status = Some((None, None));
    assert_eq!(out(cmd_audio(&c, &AudioCmd::Status, None, &k)).0[2], "live:    Office (10.0.0.5) state=? vol=?");
}

#[test]
fn audio_routing_is_set() {
    let c = local();
    let mut k = Known::nothing();
    assert_eq!(out(cmd_audio(&c, &AudioCmd::Output(None), None, &k)), (s(&["local"]), 0));
    assert_eq!(out(cmd_audio(&c, &AudioCmd::Speaker(None), None, &k)), (s(&["Vanguarda Office"]), 0));
    assert_eq!(
        err(cmd_audio(&c, &AudioCmd::Output(Some("x".to_string())), None, &k)),
        (s(&["audio_output: expects local or heos"]), 1)
    );
    let set = AudioCmd::Output(Some("HEOS".to_string()));
    assert!(matches!(cmd_audio(&c, &set, None, &k), Ask::Save(n) if n.audio_output == "heos"));
    k.saved = Some(None);
    assert_eq!(out(cmd_audio(&c, &set, None, &k)), (s(&["output = heos"]), 0));
    k.saved = Some(Some("x".to_string()));
    assert_eq!(err(cmd_audio(&c, &set, None, &k)), (s(&["save failed"]), 1));
    k.saved = Some(None);
    assert_eq!(
        out(cmd_audio(&c, &AudioCmd::Speaker(Some(" Cave ".to_string())), None, &k)),
        (s(&["speaker = Cave"]), 0)
    );
}

#[test]
fn the_speakers_volume_is_set() {
    let c = local();
    let vol = |v: &str| AudioCmd::Vol(Some(v.to_string()));
    let mut k = Known::nothing();
    k.speaker = Some(None);
    assert_eq!(err(cmd_audio(&c, &vol("5"), None, &k)), (s(&["no speaker found"]), 1));
    k.speaker = speaker();
    assert_eq!(err(cmd_audio(&c, &vol("loud"), None, &k)), (s(&["volume must be 0-100"]), 1));
    assert!(matches!(cmd_audio(&c, &vol(" 140%% "), None, &k), Ask::Request(u) if u == "heos://player/set_volume?pid=7&level=100"));
    k.answer = Some(true);
    assert_eq!(out(cmd_audio(&c, &vol("140%"), None, &k)), (s(&["Office volume → 100%"]), 0));
    k.answer = Some(false);
    assert_eq!(err(cmd_audio(&c, &vol("14"), None, &k)), (s(&["volume failed"]), 1));
    assert!(matches!(cmd_audio(&c, &AudioCmd::Vol(None), None, &k), Ask::Status));
    k.status = Some((None, Some(12)));
    assert_eq!(out(cmd_audio(&c, &AudioCmd::Vol(None), None, &k)), (s(&["Office volume: 12%"]), 0));
}

#[test]
fn a_test_cast_takes_what_is_at_hand() {
    let c = local();
    let mut k = Known::nothing();
    assert!(matches!(cmd_audio(&c, &AudioCmd::Test, None, &k), Ask::NowPath));
    k.now = Some("".to_string());
    assert!(matches!(cmd_audio(&c, &AudioCmd::Test, None, &k), Ask::LibraryTop));
    k.top = Some(None);
    assert_eq!(err(cmd_audio(&c, &AudioCmd::Test, None, &k)), (s(&["nothing to cast"]), 1));
    k.top = Some(Some("/lib.mp3".to_string()));
    k.speaker = speaker();
    assert!(matches!(cmd_audio(&c, &AudioCmd::Test, None, &k), Ask::Cast(p, 1) if p == "/lib.mp3"));
    assert!(matches!(cmd_audio(&c, &AudioCmd::Test, Some("/q.mp3"), &k), Ask::Cast(p, 1) if p == "/q.mp3"));
    k.now = Some("/now.mp3".to_string());
    k.cast = Some(None);
    let r = report(cmd_audio(&c, &AudioCmd::Test, Some("/q.mp3"), &k));
    assert_eq!(r.out, s(&["cast /now.mp3 → Office"]));
    assert_eq!(r.note.as_deref(), Some("/now.mp3"));
    k.cast = Some(Some("no".to_string()));
    assert_eq!(err(cmd_audio(&c, &AudioCmd::Test, None, &k)), (s(&["cast failed: no"]), 1));
}

#[test]
fn the_speakers_queue_is_handled() {
    let c = local();
    let mut k = Known::nothing();
    assert!(matches!(cmd_speaker_queue(&c, &s(&["ls", "-s", "Cave"]), &k), Ask::Speaker(Some(h)) if h == "Cave"));
    assert!(matches!(cmd_speaker_queue(&c, &s(&["--speaker=Den", "ls"]), &k), Ask::Speaker(Some(h)) if h == "Den"));
    assert!(matches!(cmd_speaker_queue(&c, &s(&["ls", "-s", "Cave", "-s"]), &k), Ask::Speaker(Some(h)) if h == "Vanguarda Office"));
    k.speaker = speaker();
    assert!(matches!(cmd_speaker_queue(&c, &s(&[]), &k), Ask::Entries));
    k.entries = Some(vec![entry(11, "One", "A"), entry(12, "Two", "")]);
    assert_eq!(out(cmd_speaker_queue(&c, &s(&[]), &k)), (s(&["    1. One — A", "    2. Two"]), 0));
    let uri = |args: &[&str]| match cmd_speaker_queue(&c, &s(args), &k) {
        Ask::Request(u) => u,
        _ => panic!("no request"),
    };
    assert_eq!(uri(&["PLAY", "2"]), "heos://player/play_queue?pid=7&qid=12");
    assert_eq!(uri(&["rm", "1"]), "heos://player/remove_from_queue?pid=7&qid=11");
    assert_eq!(uri(&["clear"]), "heos://player/clear_queue?pid=7");
    assert_eq!(uri(&["mv", "1", "2"]), "heos://player/move_queue_item?pid=7&sqid=11&dqid=12");
    assert_eq!(err(cmd_speaker_queue(&c, &s(&["play", "3"]), &k)), (s(&["usage: siren audio queue play <1-2>"]), 1));
    assert_eq!(err(cmd_speaker_queue(&c, &s(&["d"]), &k)), (s(&["usage: siren audio queue rm <1-2>"]), 1));
    assert_eq!(err(cmd_speaker_queue(&c, &s(&["move", "1"]), &k)), (s(&["usage: siren audio queue move <from> <to>"]), 1));
    assert_eq!(
        err(cmd_speaker_queue(&c, &s(&["x"]), &k)),
        (s(&["usage: siren audio queue [list|play <n>|rm <n>|clear|move <from> <to>]"]), 1)
    );
    k.answer = Some(true);
    assert_eq!(out(cmd_speaker_queue(&c, &s(&["p", "2"]), &k)), (s(&["playing #2 on Office"]), 0));
    assert_eq!(out(cmd_speaker_queue(&c, &s(&["del", "2"]), &k)), (s(&["removed #2 from Office"]), 0));
    assert_eq!(out(cmd_speaker_queue(&c, &s(&["c"]), &k)), (s(&["Office queue cleared"]), 0));
    assert_eq!(out(cmd_speaker_queue(&c, &s(&["move", "2", "1"]), &k)), (s(&["moved #2 → #1 on Office"]), 0));
    k.answer = Some(false);
    assert_eq!(err(cmd_speaker_queue(&c, &s(&["clear"]), &k)), (s(&["clear failed"]), 1));
    k.entries = Some(vec![]);
    assert_eq!(out(cmd_speaker_queue(&c, &s(&["list"]), &k)), (s(&["(speaker queue empty)"]), 0));
    assert_eq!(err(cmd_speaker_queue(&c, &s(&["play", "1"]), &k)), (s(&["usage: siren audio queue play <1-1>"]), 1));
}

#[test]
fn the_speaker_is_found_by_a_hint() {
    let mut c = local();
    assert_eq!(heos_target(&c, Some("x")), Some("x".to_string()));
    assert_eq!(heos_target(&c, None), Some("Vanguarda Office".to_string()));
    c.audio_speaker = " ".to_string();
    assert_eq!(heos_target(&c, None), None);
}

#[test]
fn a_match_is_cast() {
    let c = local();
    let mut k = Known::nothing();
    assert!(matches!(cmd_cast(&c, &s(&["a"]), None, false, false, &k), Ask::Resolve));
    k.hits = Some(vec![]);
    assert_eq!(out(cmd_cast(&c, &s(&["a", "b"]), None, false, false, &k)), (s(&["No tracks match: a b"]), 1));
    k.hits = Some(s(&["/x.mp3", "/y.mp3"]));
    assert!(matches!(cmd_cast(&c, &s(&["a"]), Some("Cave"), false, false, &k), Ask::Speaker(Some(h)) if h == "Cave"));
    k.speaker = speaker();
    assert!(matches!(cmd_cast(&c, &s(&["a"]), None, true, true, &k), Ask::Cast(_, 2)));
    assert!(matches!(cmd_cast(&c, &s(&["a"]), None, false, true, &k), Ask::Cast(p, 3) if p == "/x.mp3"));
    k.cast = Some(None);
    let r = report(cmd_cast(&c, &s(&["a"]), None, true, false, &k));
    assert_eq!(r.out, s(&["cast /x.mp3 → Office (play-next)"]));
    assert!(r.note.is_none());
    assert_eq!(report(cmd_cast(&c, &s(&["a"]), None, false, true, &k)).out, s(&["cast /x.mp3 → Office (appended)"]));
    assert_eq!(report(cmd_cast(&c, &s(&["a"]), None, false, false, &k)).note.as_deref(), Some("/x.mp3"));
}

#[test]
fn playing_on_the_speaker() {
    let c = heos();
    let mut k = Known::nothing();
    k.speaker = Some(None);
    assert_eq!(err(cmd_play(&c, &s(&[]), &k)), (s(&["no speaker found"]), 1));
    k.speaker = speaker();
    assert!(matches!(cmd_play(&c, &s(&[]), &k), Ask::Request(u) if u == "heos://player/set_play_state?pid=7&state=play"));
    k.answer = Some(false);
    assert_eq!(out(cmd_play(&c, &s(&[]), &k)), (s(&["Playing: Office"]), 0));
    assert!(matches!(cmd_play(&c, &s(&["x"]), &k), Ask::Resolve));
}

#[test]
fn playing_here() {
    let c = local();
    let mut k = Known::nothing();
    assert!(matches!(cmd_play(&c, &s(&[]), &k), Ask::PlaylistCount));
    k.count = Some(2);
    assert!(matches!(cmd_play(&c, &s(&[]), &k), Ask::Mpv(j) if render(&j) == "[\"set_property\",\"pause\",false]"));
    k.sent = 1;
    assert!(matches!(cmd_play(&c, &s(&[]), &k), Ask::Label(0)));
    k.label = Some("".to_string());
    assert!(matches!(cmd_play(&c, &s(&[]), &k), Ask::Mpv(j) if render(&j) == "[\"playlist-play-index\",0]"));
    k.sent = 2;
    assert!(matches!(cmd_play(&c, &s(&[]), &k), Ask::Label(150)));
    k.label_after = Some("".to_string());
    assert_eq!(out(cmd_play(&c, &s(&[]), &k)), (s(&["Playback resumed"]), 0));
    k.label_after = Some("T".to_string());
    assert_eq!(out(cmd_play(&c, &s(&[]), &k)), (s(&["Playing: T"]), 0));
    let mut k = Known::nothing();
    k.count = Some(0);
    assert!(matches!(cmd_play(&c, &s(&[]), &k), Ask::Resolve));
    assert!(matches!(cmd_play(&c, &s(&["mix"]), &k), Ask::Names));
    k.names = Some(s(&["Mixtape"]));
    assert!(matches!(cmd_play(&c, &s(&["mix"]), &k), Ask::PlayList(n) if n == "Mixtape"));
    k.names = Some(vec![]);
    k.hits = Some(vec![]);
    assert_eq!(out(cmd_play(&c, &s(&["mix"]), &k)), (s(&["No tracks match: mix"]), 1));
    k.hits = Some(s(&["/a"]));
    assert!(matches!(cmd_play(&c, &s(&["mix", "b"]), &k), Ask::Start(p, false) if p == s(&["/a"])));
}

#[test]
fn a_playlist_is_put_on() {
    let mut t = Session::new();
    assert!(matches!(cmd_playlist_load(&mut t, &local(), "mix", vec![]), Load::Missing(l) if l == "Playlist not found: mix"));
    match cmd_playlist_load(&mut t, &local(), "mix", vec![new_item("/a.mp3"), new_item("/b.mp3")]) {
        Load::Here(p, l) => {
            assert_eq!(p.label, "a");
            assert_eq!(l, "Playing playlist: mix");
        }
        _ => panic!("not here"),
    }
    assert_eq!(t.queue.items.len(), 2);
    assert!(matches!(cmd_playlist_load(&mut t, &heos(), "mix", vec![new_item("/a")]), Load::Speaker(p) if p == s(&["/a"])));
}

#[test]
fn files_are_put_on_the_speaker() {
    let c = heos();
    let mut k = Known::nothing();
    assert_eq!(out(play_paths_heos(&c, &s(&[]), None, &k)), (s(&["Queue empty."]), 1));
    k.speaker = speaker();
    match play_paths_heos(&c, &s(&["/a", "/b"]), None, &k) {
        Ask::CastMany(l, p) => {
            assert_eq!(l, "casting 2 track(s) → Office…");
            assert_eq!(p.len(), 2);
        }
        _ => panic!("not cast"),
    }
    k.casts = Some((1, 2));
    let r = report(play_paths_heos(&c, &s(&["/a", "/b"]), Some("mix"), &k));
    assert_eq!((r.out, r.code, r.note.as_deref()), (s(&["Playing playlist: mix (1/2 on Office)"]), 0, Some("/a")));
    k.casts = Some((0, 2));
    let r = report(play_paths_heos(&c, &s(&["/a", "/b"]), None, &k));
    assert_eq!((r.out, r.code, r.note), (s(&["Playing queue (0/2 on Office)"]), 1, None));
}

#[test]
fn a_random_track() {
    let lib = s(&["/a", "/b", "/c"]);
    let mut k = Known::nothing();
    assert_eq!(out(cmd_random(&local(), &s(&[]), 4, &k)), (s(&["No tracks found in library."]), 1));
    assert!(matches!(cmd_random(&local(), &lib, 4, &k), Ask::Start(p, true) if p == lib));
    k.speaker = speaker();
    assert!(matches!(cmd_random(&heos(), &lib, 4, &k), Ask::Cast(p, 1) if p == "/b"));
}

#[test]
fn matches_are_listed() {
    assert_eq!(out(cmd_resolve(&s(&["q"]), &s(&[]))), (s(&["No tracks match: q"]), 1));
    assert_eq!(out(cmd_resolve(&s(&["q"]), &s(&["/a", "/b"]))), (s(&["  1. /a", "  2. /b"]), 0));
    let many: Vec<String> = (0..25).map(|i| format!("/{i}")).collect();
    let (lines, _) = out(cmd_resolve(&s(&["q"]), &many));
    assert_eq!(lines.len(), 21);
    assert_eq!(lines[19], " 20. /19");
    assert_eq!(lines[20], "… 5 more");
}

#[test]
fn transport_goes_where_the_audio_goes() {
    let mut k = Known::nothing();
    assert!(matches!(cmd_transport(&local(), Verb::Next, &k), Ask::Local(Verb::Next)));
    k.done = true;
    assert!(matches!(cmd_transport(&local(), Verb::Next, &k), Ask::Label(150)));
    k.label_after = Some("T".to_string());
    assert_eq!(out(cmd_transport(&local(), Verb::Next, &k)), (s(&["Next: T"]), 0));
    assert_eq!(out(cmd_transport(&local(), Verb::Prev, &k)), (s(&["Previous: T"]), 0));
    assert_eq!(out(cmd_transport(&local(), Verb::Pause, &k)), (s(&["Playback paused / resumed"]), 0));
    assert_eq!(out(cmd_transport(&local(), Verb::Stop, &k)), (s(&["Playback stopped"]), 0));
    k.speaker = speaker();
    assert!(matches!(cmd_transport(&heos(), Verb::Pause, &k), Ask::State));
    k.state = Some(Some("play".to_string()));
    assert!(matches!(cmd_transport(&heos(), Verb::Pause, &k), Ask::Request(u) if u.ends_with("state=pause")));
    assert!(matches!(cmd_transport(&heos(), Verb::Stop, &k), Ask::Request(u) if u.ends_with("state=stop")));
    assert!(matches!(cmd_transport(&heos(), Verb::Prev, &k), Ask::Request(u) if u == "heos://player/play_previous?pid=7"));
    k.answer = Some(true);
    assert_eq!(out(cmd_transport(&heos(), Verb::Pause, &k)), (s(&["Office → pause"]), 0));
    assert_eq!(out(cmd_transport(&heos(), Verb::Stop, &k)), (s(&["Office stopped"]), 0));
    assert_eq!(out(cmd_transport(&heos(), Verb::Next, &k)), (s(&["Next: Office"]), 0));
    assert_eq!(out(cmd_transport(&heos(), Verb::Prev, &k)), (s(&["Previous: Office"]), 0));
}

#[test]
fn what_plays_and_how() {
    let t = Session::new();
    let mut k = Known::nothing();
    assert!(matches!(cmd_now(&local(), &k), Ask::Label(0)));
    k.label = Some("".to_string());
    assert_eq!(out(cmd_now(&local(), &k)), (s(&["Not playing"]), 0));
    k.speaker = speaker();
    k.status = Some((Some("play".to_string()), None));
    assert_eq!(out(cmd_now(&heos(), &k)), (s(&["Office — play, ?"]), 0));
    assert_eq!(
        out(cmd_status(&heos(), &t, None, 0, &k)),
        (s(&["status: play", "speaker: Office (10.0.0.5)", "vol:    ?"]), 0)
    );
    assert_eq!(
        out(cmd_status(&local(), &t, None, 12, &k)),
        (s(&["status: idle (no mpv)", "library tracks: 12"]), 0)
    );
}

#[test]
fn the_cache_of_what_plays() {
    let here = LocalNow { label: "T".to_string(), alive: true, paused: false, volume: Some(40) };
    assert_eq!(
        render(&now_snapshot(&local(), None, &here, "1.5")),
        "{\"label\":\"T\",\"output\":\"local\",\"state\":\"play\",\"ts\":1.5,\"vol\":40}"
    );
    let idle = LocalNow { label: "".to_string(), alive: false, paused: true, volume: None };
    assert_eq!(
        render(&now_snapshot(&local(), None, &idle, "1.5")),
        "{\"label\":\"\",\"output\":\"local\",\"state\":\"idle\",\"ts\":1.5,\"vol\":null}"
    );
    let sp = Speaker { ip: "i".to_string(), pid: 1, name: "Office".to_string() };
    let state = Some("pause".to_string());
    let text = render(&now_snapshot(&heos(), Some((&sp, &state, Some(9))), &idle, "2.5"));
    assert_eq!(text, "{\"label\":\"Office — pause\",\"output\":\"heos\",\"state\":\"pause\",\"ts\":2.5,\"vol\":9}");
    assert_eq!(cmd_now_cached(&text), "Office — pause");
    assert_eq!(cmd_now_cached("{}"), "Not playing");
    assert_eq!(render(&cached_json("{\"age\":3,\"label\":\"x\"}", "0.5")), "{\"age\":0.5,\"label\":\"x\"}");
    assert_eq!(render(&cached_json("oops", "0.5")), "{\"age\":0.5}");
    assert_eq!(
        render(&now_snapshot(&heos(), None, &here, "2.5")),
        "{\"label\":\"\",\"output\":\"heos\",\"state\":null,\"ts\":2.5,\"vol\":null}"
    );
}

#[test]
fn queue_commands_are_read() {
    assert!(matches!(cmd_queue(&s(&["ADD", "-n", "old", "--next", "song"])), QueueCmd::Add(q, true) if q == "old song"));
    assert!(matches!(cmd_queue(&s(&["a", "x"])), QueueCmd::Add(q, false) if q == "x"));
    assert!(matches!(cmd_queue(&s(&["ls"])), QueueCmd::List));
    assert!(matches!(cmd_queue(&s(&["c"])), QueueCmd::Clear));
    assert!(matches!(cmd_queue(&s(&["play"])), QueueCmd::Play));
    assert!(matches!(cmd_queue(&s(&["n"])), QueueCmd::Next));
    assert!(matches!(cmd_queue(&s(&["rm", "2"])), QueueCmd::Remove(i) if i == "2"));
    assert!(matches!(cmd_queue(&s(&["rm"])), QueueCmd::Usage(u) if u == "Usage: siren queue remove <index>"));
    assert!(matches!(cmd_queue(&s(&["mv", "1", "2"])), QueueCmd::Move(a, b) if a == "1" && b == "2"));
    assert!(matches!(cmd_queue(&s(&["mv", "1"])), QueueCmd::Usage(u) if u == "Usage: siren queue move <from> <to>"));
    assert!(matches!(cmd_queue(&s(&[])), QueueCmd::Usage(u) if u.starts_with("Queue commands:")));
}

#[test]
fn playlist_commands_are_read() {
    let names = s(&["Mixtape"]);
    assert!(matches!(cmd_playlist(&s(&["save", "x"]), &names), ListCmd::Save(n) if n == "x"));
    assert!(matches!(cmd_playlist(&s(&["load", "mix"]), &names), ListCmd::Load(n) if n == "Mixtape"));
    assert!(matches!(cmd_playlist(&s(&["load", "rock"]), &names), ListCmd::Load(n) if n == "rock"));
    assert!(matches!(cmd_playlist(&s(&["ls"]), &names), ListCmd::List));
    assert!(matches!(cmd_playlist(&s(&["del", "x"]), &names), ListCmd::Remove(n) if n == "x"));
    for (a, u) in [("save", "save"), ("load", "load"), ("rm", "remove")] {
        assert!(matches!(cmd_playlist(&s(&[a]), &names), ListCmd::Usage(l) if l == format!("Usage: siren playlist {u} <name>")));
    }
    assert!(matches!(cmd_playlist(&s(&["x"]), &names), ListCmd::Usage(l) if l == "Playlist commands: save, load, list, remove"));
    assert_eq!(out(list_playlists(&names)), (s(&["  Mixtape"]), 0));
    assert_eq!(out(list_playlists(&s(&[]))), (s(&["(no saved playlists)"]), 0));
    assert_eq!(out(report_saved("x", true)), (s(&["Saved playlist: x"]), 0));
    assert_eq!(out(report_saved("x", false)), (s(&["Failed to save playlist."]), 1));
    assert_eq!(out(report_deleted("x", true)), (s(&["Deleted playlist: x"]), 0));
    assert_eq!(out(report_deleted("x", false)), (s(&["Playlist not found: x"]), 1));
}

#[test]
fn the_sleep_timer() {
    assert!(matches!(cmd_sleep(&s(&[])), SleepCmd::Show));
    assert!(matches!(cmd_sleep(&s(&["OFF"])), SleepCmd::Off));
    assert!(matches!(cmd_sleep(&s(&["30"])), SleepCmd::After(m) if m == "30"));
    let line = "Mon 2025-01-06 10:00:00 CET 44min left - - siren-sleep.timer siren-sleep.service\n";
    assert_eq!(sleep_status(&format!("other\n{line}")), "sleep: stops in 44min left");
    assert_eq!(sleep_status("Mon 2025-01-06 10:00:00 CET 44min - siren-sleep.timer"), "sleep: stops in 44min");
    assert_eq!(sleep_status("n/a 3min siren-sleep.timer"), "sleep: stops in 3min");
    assert_eq!(sleep_status("x siren-sleep"), "sleep: stops in ?");
    assert_eq!(sleep_status("nothing"), "sleep: off");
    assert_eq!(sleep_list_args(), s(&["list-timers", "--no-legend", "--no-pager"]));
    assert_eq!(sleep_stop_args(), s(&["stop", "siren-sleep.timer"]));
    assert_eq!(sleep_reset_args(), s(&["reset-failed", "siren-sleep.*"]));
    assert_eq!(
        sleep_args("1.5", "/h"),
        s(&["--user", "--quiet", "--on-active=1.5min", "--unit=siren-sleep", "/h/bin/siren", "stop"])
    );
    assert_eq!(out(sleep_off_report()), (s(&["sleep: off"]), 0));
    assert_eq!(err(sleep_report(None, true)), (s(&["usage: siren sleep [minutes|off]"]), 2));
    assert_eq!(out(sleep_report(Some("30"), true)), (s(&["sleep: stops in 30min"]), 0));
    assert_eq!(err(sleep_report(Some("30"), false)), (s(&["sleep: systemd-run failed (user manager up?)"]), 1));
    assert_eq!(shellexpand("~/x", "/h"), "/h/x");
    assert_eq!(shellexpand("~//x", "/h"), "/h//x");
    assert_eq!(shellexpand("x", "/h"), "x");
}

#[test]
fn trove_commands_are_read() {
    let (f, rest) = trove_format_arg(&s(&["--format", "MP3", "a", "--format=FLAC", "--format"]));
    assert_eq!((f.as_deref(), rest), (Some("flac"), s(&["a"])));
    assert!(matches!(cmd_trove(&s(&[])), (None, TroveCmd::Search(10, w)) if w.is_empty()));
    assert!(matches!(cmd_trove(&s(&["5", "music", "lofi"])).1, TroveCmd::Search(5, w) if w == s(&["music", "lofi"])));
    assert!(matches!(cmd_trove(&s(&["music"])).1, TroveCmd::Search(10, w) if w == s(&["music"])));
    assert!(matches!(cmd_trove(&s(&["GET", "x"])).1, TroveCmd::Get(i) if i == "x"));
    assert!(matches!(cmd_trove(&s(&["g"])).1, TroveCmd::Usage(_)));
    match cmd_trove(&s(&["--help"])).1 {
        TroveCmd::About(l) => assert_eq!(l[0], "  siren trove — free & legal media"),
        _ => panic!("not about"),
    }
}
