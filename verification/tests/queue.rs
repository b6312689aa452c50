use siren::config::SirenConfig;
use siren::json::{json_str, render, Json};
use siren::queue::{
    basename, cli_add, cli_add_path, cli_clear, cli_clear_quiet, cli_list, cli_move, cli_play, cli_queue_next, cli_remove,
    cmd_next, cmd_pause, cmd_prev, cmd_stop, display_of, ensure_loaded, fmt_clock, get_repeat, maybe_resync_queue, new_item,
    now_label, play_queue_from, queue_add_and_play, read_index, read_queue, replace, save_queue, shuffle_in_place, snapshot,
    start_playlist, status_lines, sync_mpv_playlist, End, MpvState, Outcome, Queue, QueueItem, Session, Step,
};

fn s(v: &[&str]) -> Vec<String> {
    v.iter().map(|x| x.to_string()).collect()
}

fn texts(v: &[Json]) -> Vec<String> {
    v.iter().map(render).collect()
}

fn session(paths: &[&str]) -> Session {
    let mut t = Session::new();
    for p in paths {
        t.queue.add(p, false);
    }
    t
}

fn paths(t: &Session) -> Vec<String> {
    t.queue.items.iter().map(|i| i.path.clone()).collect()
}

fn step_texts(steps: &[Step]) -> Vec<String> {
    steps
        .iter()
        .map(|x| match x {
            Step::Mpv(j) => format!("mpv {}", render(j)),
            Step::Sync(y) => format!("sync {}", y.rest.len()),
            Step::Say(l) => format!("say {l}"),
            Step::Save => "save".to_string(),
        })
        .collect()
}

fn said(o: &Outcome, line: &str, code: i32) -> bool {
    step_texts(&o.steps) == vec![format!("say {line}")] && matches!(o.end, End::Code(c) if c == code)
}

fn played(o: &Outcome) -> Vec<String> {
    match &o.end {
        End::Play(p) => {
            let mut r = vec![p.label.clone()];
            for j in &p.sync.rest {
                if let Json::Arr(a) = j {
                    if a[0].as_str() == Some("loadfile") {
                        r.push(a[1].as_str().unwrap().to_string());
                    }
                }
            }
            r
        }
        End::Code(c) => vec![format!("code {c}")],
    }
}

#[test]
fn paths_are_shown_by_their_stem() {
    assert_eq!(display_of("/a/b.c.mp3"), "b.c");
    assert_eq!(display_of("file:///a/x.ogg"), "x");
    assert_eq!(display_of("/"), "/");
    assert_eq!(basename("/a/b.mp3"), "b.mp3");
    assert_eq!(basename("/"), "/");
}

#[test]
fn items_are_added_and_removed() {
    let mut q = Queue { items: Vec::new() };
    assert_eq!(q.add("/a.mp3", false), 1);
    assert_eq!(q.add("/b.mp3", false), 2);
    assert_eq!(q.add("/c.mp3", true), 3);
    assert_eq!(q.items[0].path, "/c.mp3");
    assert_eq!(q.items[2].display, "b");
    assert_eq!(q.items[2].duration, "0.0");
    assert!(q.remove(3).is_none());
    assert_eq!(q.remove(0).unwrap().path, "/c.mp3");
    q.clear();
    assert!(q.items.is_empty());
}

#[test]
fn what_is_missing_is_dropped() {
    let mut q = session(&["/a", "/b", "/c"]).queue;
    let gone = q.validate(&vec![true, false, true]);
    assert_eq!(gone.len(), 1);
    assert_eq!(gone[0].0.path, "/b");
    assert_eq!(gone[0].1, "missing");
    assert_eq!(q.items.len(), 2);
}

#[test]
fn a_saved_queue_reads_back() {
    let t = session(&["/a.mp3", "/b \"q\".ogg"]);
    let back = read_queue(&save_queue(&t.queue));
    assert_eq!(back.len(), 2);
    assert_eq!(back[1].path, "/b \"q\".ogg");
    assert_eq!(back[1].display, "b \"q\"");
    assert_eq!(back[1].duration, "0.0");
}

#[test]
fn tracks_of_any_duration_read_back() {
    let mut t = session(&["/a.mp3", "/b.ogg"]);
    t.queue.items[0].duration = "1e999".to_string();
    t.queue.items[1].duration = "61.25".to_string();
    let back = read_queue(&save_queue(&t.queue));
    assert_eq!(back.iter().map(|i| i.path.as_str()).collect::<Vec<_>>(), vec!["/a.mp3", "/b.ogg"]);
    assert_eq!((back[0].duration.as_str(), back[1].duration.as_str()), ("0.0", "61.25"));
}

#[test]
fn a_stored_queue_may_be_partial() {
    let back = read_queue("[{\"path\":\"/a\"},{\"path\":\"\"},{\"title\":\"x\"},{\"path\":\"/b\",\"duration\":2}]");
    assert_eq!(back.len(), 2);
    assert_eq!(back[0].display, "");
    assert_eq!(back[1].duration, "2.0");
    assert!(read_queue("{}").is_empty());
    assert!(read_queue("nope").is_empty());
}

#[test]
fn loading_keeps_what_exists() {
    let mut t = session(&["/old"]);
    let items = session(&["/a", "/b"]).queue.items;
    ensure_loaded(&mut t, &items, &vec![false, true]);
    assert_eq!(paths(&t), s(&["/b"]));
    ensure_loaded(&mut t, &items, &vec![false, false]);
    assert_eq!(paths(&t), s(&["/b"]));
}

#[test]
fn shuffling_permutes() {
    let mut v: Vec<String> = (0..50).map(|i| i.to_string()).collect();
    let before = v.clone();
    shuffle_in_place(&mut v, 7);
    assert_ne!(v, before);
    let mut sorted = v.clone();
    sorted.sort_by_key(|x| x.parse::<u32>().unwrap());
    assert_eq!(sorted, before);
}

#[test]
fn shuffling_follows_the_generator() {
    fn by_hand(v: &mut Vec<String>, seed: u64) {
        let mut seed = if seed == 0 { 0x9e3779b97f4a7c15 } else { seed };
        for i in (1..v.len()).rev() {
            seed ^= seed << 13;
            seed ^= seed >> 7;
            seed ^= seed << 17;
            v.swap(i, (seed % (i as u64 + 1)) as usize);
        }
    }
    for seed in [0u64, 1, 12345678901234567, u64::MAX] {
        let mut a: Vec<String> = (0..9).map(|i| i.to_string()).collect();
        let mut b = a.clone();
        shuffle_in_place(&mut a, seed);
        by_hand(&mut b, seed);
        assert_eq!(a, b);
    }
}

#[test]
fn a_list_of_files_is_put_on() {
    let r = match start_playlist(&s(&["/a.mp3", "/b.mp3"]), false, 1) {
        Ok(r) => r,
        Err(e) => panic!("{e}"),
    };
    assert_eq!(
        texts(&r.commands),
        vec![
            "[\"playlist-clear\"]",
            "[\"loadfile\",\"/a.mp3\",\"replace\"]",
            "[\"set_property\",\"pause\",false]",
            "[\"set_property\",\"video\",\"no\"]",
            "[\"loadfile\",\"/b.mp3\",\"append\"]"
        ]
    );
    assert_eq!(r.label, "a");
    assert_eq!(r.line, "Playing 2 track(s)");
    match start_playlist(&s(&[]), true, 1) {
        Err(e) => assert_eq!(e, "No tracks found to play."),
        Ok(_) => panic!("played"),
    }
}

#[test]
fn a_playlist_is_handed_over() {
    let y = sync_mpv_playlist(&s(&["/a", "/b"]));
    assert_eq!(render(&y.gate.unwrap()), "[\"playlist-clear\"]");
    assert_eq!(
        texts(&y.rest),
        vec![
            "[\"loadfile\",\"/a\",\"replace\"]",
            "[\"loadfile\",\"/b\",\"append\"]",
            "[\"set_property\",\"pause\",false]",
            "[\"set_property\",\"video\",\"no\"]"
        ]
    );
    let none = sync_mpv_playlist(&s(&[]));
    assert!(none.gate.is_none());
    assert_eq!(texts(&none.rest), vec!["[\"stop\"]"]);
}

#[test]
fn the_queue_plays_from_a_place() {
    let t = session(&["/a", "/b", "/c"]);
    assert!(play_queue_from(&t, 3, true).is_none());
    let p = play_queue_from(&t, 1, true).unwrap();
    assert_eq!(p.label, "b");
    assert_eq!(p.sync.rest.len(), 5);
    assert_eq!(play_queue_from(&t, 1, false).unwrap().sync.rest.len(), 4);
}

#[test]
fn next_and_previous_go_round() {
    let t = session(&["/a", "/b", "/c"]);
    assert_eq!(played(&cmd_next(&t, "/c")), s(&["a", "/a", "/b", "/c"]));
    assert_eq!(played(&cmd_prev(&t, "/a")), s(&["c", "/c", "/a", "/b"]));
    assert_eq!(step_texts(&cmd_next(&t, "/x").steps), vec!["mpv [\"playlist-next\"]"]);
    assert_eq!(step_texts(&cmd_prev(&t, "").steps), vec!["mpv [\"playlist-prev\"]"]);
}

#[test]
fn stopping_lets_the_queue_go() {
    let mut t = session(&["/a"]);
    t.queue_started("a");
    assert!(t.driven);
    assert_eq!(now_label(&t, ""), "a");
    assert_eq!(render(&cmd_stop(&mut t)), "[\"stop\"]");
    assert!(!t.driven);
    assert_eq!(now_label(&t, ""), "");
    assert_eq!(now_label(&t, "/x/y.mp3"), "y");
    assert_eq!(render(&cmd_pause()), "[\"cycle\",\"pause\"]");
    t.playlist_started("p");
    assert!(!t.driven);
    assert_eq!(now_label(&t, ""), "p");
}

#[test]
fn a_changed_queue_is_brought_in_line() {
    let mut t = session(&["/a", "/b"]);
    assert!(maybe_resync_queue(&mut t, "/b").is_empty());
    t.queue_started("a");
    assert_eq!(
        step_texts(&maybe_resync_queue(&mut t, "/b")),
        vec!["sync 4", "mpv [\"set_property\",\"playlist-pos\",1]"]
    );
    assert_eq!(step_texts(&maybe_resync_queue(&mut t, "/a")), vec!["sync 4"]);
    t.queue.clear();
    assert_eq!(
        step_texts(&maybe_resync_queue(&mut t, "/a")),
        vec!["mpv [\"playlist-clear\"]", "mpv [\"stop\"]"]
    );
    assert!(!t.driven);
}

#[test]
fn a_played_path_is_queued_once() {
    let mut t = session(&["/a"]);
    assert_eq!(queue_add_and_play(&mut t, "/b", false).unwrap().label, "b");
    assert_eq!(queue_add_and_play(&mut t, "/b", true).unwrap().label, "b");
    assert_eq!(paths(&t), s(&["/a", "/b"]));
}

#[test]
fn clocks_are_minutes_and_seconds() {
    assert_eq!(fmt_clock(0), "0:00");
    assert_eq!(fmt_clock(61), "1:01");
    assert_eq!(fmt_clock(3600), "60:00");
    assert_eq!(fmt_clock(-5), "0:00");
}

#[test]
fn repeating_is_read_from_two_properties() {
    assert_eq!(get_repeat(Some(&json_str("inf")), None), "all");
    assert_eq!(get_repeat(Some(&json_str("no")), Some(&Json::Bool(true))), "track");
    assert_eq!(get_repeat(None, Some(&json_str("always"))), "track");
    assert_eq!(get_repeat(None, None), "off");
}

#[test]
fn the_status_has_its_lines() {
    let c = SirenConfig::default();
    let t = session(&[]);
    assert_eq!(status_lines(&c, &t, None), s(&["status: idle (no mpv)"]));
    let m = MpvState {
        paused: true,
        path: "/x/y.mp3".to_string(),
        pos: 61,
        dur: Some(125),
        volume: None,
        shuffle: true,
        repeat: "all".to_string(),
    };
    assert_eq!(
        status_lines(&c, &t, Some(&m)),
        s(&["status: paused", "track:  y", "time:   1:01 / 2:05", "vol:    75%", "mode:   shuffle on · repeat all"])
    );
    let silent = MpvState { paused: false, path: "".to_string(), dur: None, volume: Some(10), shuffle: false, ..m };
    assert_eq!(
        status_lines(&c, &t, Some(&silent)),
        s(&["status: playing", "track:  — silence —", "vol:    10%", "mode:   shuffle off · repeat all"])
    );
}

#[test]
fn tracks_are_added_by_a_query() {
    let mut t = session(&["/a"]);
    assert!(said(&cli_add(&mut t, &s(&[]), false, ""), "No tracks found matching query.", 1));
    let o = cli_add(&mut t, &s(&["/b", "/c"]), true, "");
    assert_eq!(step_texts(&o.steps), vec!["say Prepended 2 track(s) to queue.", "save"]);
    assert_eq!(paths(&t), s(&["/c", "/b", "/a"]));
    let o = cli_add(&mut t, &s(&["/d"]), false, "");
    assert_eq!(step_texts(&o.steps), vec!["say Added 1 track(s) to queue.", "save"]);
}

#[test]
fn the_queue_is_listed() {
    let t = session(&["/a.mp3", "/b.mp3"]);
    assert_eq!(cli_list(&t), s(&["  ▶   1. a", "      2. b"]));
    assert_eq!(cli_list(&session(&[])), s(&["(queue empty)"]));
}

#[test]
fn playing_drops_what_is_missing() {
    let mut t = session(&["/a", "/b"]);
    let o = cli_play(&mut t, &vec![false, true], "");
    assert_eq!(step_texts(&o.steps), vec!["say Removed missing: a", "save"]);
    assert_eq!(played(&o), s(&["b", "/b"]));
    let o = cli_play(&mut t, &vec![false], "");
    assert_eq!(step_texts(&o.steps), vec!["say Removed missing: b", "save", "say Queue empty after validation."]);
    assert!(said(&cli_play(&mut t, &vec![], ""), "Queue empty.", 1));
}

#[test]
fn the_next_track_of_the_queue() {
    let t = session(&["/a", "/b"]);
    assert_eq!(played(&cli_queue_next(&t, "/a")), s(&["b", "/b", "/a"]));
    assert_eq!(played(&cli_queue_next(&t, "/x")), s(&["a", "/a", "/b"]));
    assert!(said(&cli_queue_next(&session(&[]), "/a"), "Queue empty.", 1));
}

#[test]
fn places_are_counted_from_one() {
    assert_eq!(read_index("1"), Some(0));
    assert_eq!(read_index("0"), None);
    assert_eq!(read_index("x"), None);
}

#[test]
fn tracks_are_removed_by_place() {
    let mut t = session(&["/a", "/b"]);
    assert!(said(&cli_remove(&mut t, "x", ""), "Usage: siren queue remove <index>", 1));
    assert!(said(&cli_remove(&mut t, "3", ""), "Invalid index.", 1));
    let o = cli_remove(&mut t, "1", "");
    assert_eq!(step_texts(&o.steps), vec!["save", "say Removed: a"]);
    assert_eq!(paths(&t), s(&["/b"]));
}

#[test]
fn a_moved_track_moves_back() {
    let mut t = session(&["/a", "/b", "/c"]);
    assert!(said(&cli_move(&mut t, "0", "1", ""), "Usage: siren queue move <from> <to>", 1));
    assert!(said(&cli_move(&mut t, "1", "4", ""), "Invalid indices.", 1));
    let o = cli_move(&mut t, "1", "3", "");
    assert_eq!(step_texts(&o.steps), vec!["save", "say Moved."]);
    assert_eq!(paths(&t), s(&["/b", "/c", "/a"]));
    cli_move(&mut t, "3", "1", "");
    assert_eq!(paths(&t), s(&["/a", "/b", "/c"]));
}

#[test]
fn the_queue_is_cleared_and_replaced() {
    let mut t = session(&["/a"]);
    let o = cli_clear(&mut t, "");
    assert_eq!(step_texts(&o.steps), vec!["save", "say Queue cleared."]);
    let items: Vec<QueueItem> = vec![new_item("/x")];
    assert!(matches!(replace(&mut t, items), Step::Save));
    assert_eq!(snapshot(&t)[0].path, "/x");
    cli_add_path(&mut t, "/y", true);
    assert_eq!(paths(&t), s(&["/y", "/x"]));
    cli_clear_quiet(&mut t);
    assert!(paths(&t).is_empty());
}
