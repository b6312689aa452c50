use siren::heos::{
    self, apply_msg, clear_queue, enrich, enrich_ip, enrich_requests, get_queue, get_queue_uri, get_state, get_state_uri,
    items_of, last_cast, last_radio_title, local_ip, move_queue_item, note_cast, note_radio, ok, play_next, play_previous,
    play_queue, player_from_json, read_roster_cache, refresh_roster, remove_from_queue, resolve, roster, roster_uri, set_mute,
    set_state, set_volume, split_objects, sweep, sweep_known, toggle, tunein_play, tunein_search, tunein_uri, tunein_waits,
    write_roster_cache, Exchange, Heard, HeosPlayer,
};
use siren::json::{parse_or_null, render, Json};

fn objs(text: &str) -> Vec<Json> {
    split_objects(text)
}

fn player(name: &str, pid: i64) -> HeosPlayer {
    HeosPlayer {
        name: name.to_string(),
        pid,
        model: "HEOS 1".to_string(),
        ip: "10.0.0.5".to_string(),
        network: "wifi".to_string(),
        state: None,
        volume: None,
    }
}

#[test]
fn objects_are_told_apart() {
    let v = objs("{\"a\":\"}{\"} junk {\"b\":{\"c\":\"\\\"}\"}}\r\n{\"broken\": {\"d\":1}");
    assert_eq!(v.iter().map(render).collect::<Vec<_>>(), vec!["{\"a\":\"}{\"}", "{\"b\":{\"c\":\"\\\"}\"}}"]);
    assert!(objs("").is_empty());
    assert!(objs("no object").is_empty());
}

#[test]
fn an_exchange_ends_at_a_quiet_gap_after_all_replies() {
    let mut x = Exchange::begin(1, 3);
    assert!(x.heard(Heard::Data(b"{\"heos\":{\"message\":\"command under process\"}}".to_vec())));
    assert!(x.heard(Heard::Quiet));
    assert!(x.heard(Heard::Data(b"{\"heos\":{\"result\":\"success\"}}".to_vec())));
    assert!(!x.heard(Heard::Quiet));
    assert_eq!(x.replies().unwrap().len(), 2);
}

#[test]
fn an_exchange_gives_up() {
    let mut x = Exchange::begin(1, 2);
    assert!(x.heard(Heard::Quiet));
    assert!(!x.heard(Heard::Quiet));
    assert!(x.replies().is_none());
    let mut y = Exchange::begin(1, 2);
    assert!(!y.heard(Heard::Closed));
    let mut z = Exchange::begin(1, 2);
    assert!(!z.heard(Heard::Failed));
}

#[test]
fn one_success_is_enough() {
    assert!(ok(&objs("{\"heos\":{\"result\":\"fail\"}}{\"heos\":{\"result\":\"success\"}}")));
    assert!(!ok(&objs("{\"heos\":{\"result\":\"fail\"}}")));
    assert!(!ok(&objs("")));
    assert_eq!(items_of(&objs("{\"payload\":[1,2]}{\"payload\":{}}{\"payload\":[3]}")).len(), 3);
}

#[test]
fn state_and_volume_come_in_messages() {
    let mut p = player("Office", 7);
    apply_msg(&mut p, &objs("{\"heos\":{\"message\":\"pid=7&state=play\"}}{\"heos\":{\"message\":\"pid=7&level=x&level=35\"}}"));
    assert_eq!(p.state.as_deref(), Some("play"));
    assert_eq!(p.volume, Some(35));
    apply_msg(&mut p, &objs("{\"payload\":{\"state\":\"stop\",\"level\":5}}"));
    assert_eq!(p.state.as_deref(), Some("stop"));
    assert_eq!(p.volume, Some(5));
}

#[test]
fn the_roster_is_read() {
    assert_eq!(roster_uri(), "heos://player/get_players");
    let r = roster(&objs("{\"payload\":[{\"name\":\"A\",\"pid\":3,\"model\":\"M\"},{\"ip\":\"10.0.0.9\"}]}"), "10.0.0.1");
    assert_eq!(r.len(), 2);
    assert_eq!((r[0].name.as_str(), r[0].pid, r[0].ip.as_str()), ("A", 3, "10.0.0.1"));
    assert_eq!((r[1].name.as_str(), r[1].pid, r[1].model.as_str(), r[1].ip.as_str()), ("?", 0, "?", "10.0.0.9"));
}

#[test]
fn known_addresses_come_first() {
    assert_eq!(
        sweep_known("{\"players\":[{\"ip\":\"10.0.0.2\"},{\"ip\":\"10.0.0.2\"},{\"x\":1},{\"ip\":\"192.168.8.185\"}]}"),
        vec!["10.0.0.2", "192.168.8.185", "192.168.8.184"]
    );
    assert_eq!(sweep_known("oops"), vec!["192.168.8.184", "192.168.8.185"]);
}

#[test]
fn the_neighbours_are_swept_without_oneself() {
    assert_eq!(local_ip("127.0.0.1"), None);
    assert_eq!(local_ip("10.1.2.3"), Some("10.1.2.3".to_string()));
    let n = sweep("10.1.2.3");
    assert_eq!(n.len(), 253);
    assert_eq!(n[0], "10.1.2.1");
    assert_eq!(n[2], "10.1.2.4");
    assert_eq!(n[252], "10.1.2.254");
    assert!(sweep("localhost").is_empty());
}

#[test]
fn players_are_enriched() {
    let mut p = player("Office", 7);
    assert_eq!(
        enrich_requests(&p),
        vec!["heos://player/get_play_state?pid=7", "heos://player/get_volume?pid=7"]
    );
    assert!(enrich_requests(&player("X", 0)).is_empty());
    enrich(&mut p, &objs("{\"heos\":{\"message\":\"state=pause\"}}"));
    assert_eq!(p.state.as_deref(), Some("pause"));
    assert_eq!(enrich_ip(&vec![p]), Some("10.0.0.5".to_string()));
    assert_eq!(enrich_ip(&vec![]), None);
}

#[test]
fn the_roster_cache_reads_back() {
    let text = write_roster_cache(&vec![player("Office", 7), player("Cave", 8)], "1700000000.5");
    let (ts, ps) = read_roster_cache(&text).unwrap();
    assert_eq!(ts, "1700000000.5");
    assert_eq!(ps.len(), 2);
    assert_eq!((ps[1].name.as_str(), ps[1].pid, ps[1].network.as_str()), ("Cave", 8, "wifi"));
    let text = refresh_roster(&ps, "0").unwrap();
    let (_, again) = read_roster_cache(&text).unwrap();
    assert_eq!((again[0].name.as_str(), again[0].pid, again[0].ip.as_str()), ("Office", 7, ps[0].ip.as_str()));
    assert_eq!(again[0].model, ps[0].model);
    assert!(read_roster_cache("{\"ts\":1.5,\"players\":[]}").is_none());
    assert!(read_roster_cache("{\"players\":[]}").is_none());
    assert!(refresh_roster(&vec![], "1.5").is_none());
    assert!(player_from_json(&parse_or_null("{\"name\":\"A\",\"pid\":1}")).is_none());
}

#[test]
fn a_speaker_is_resolved_by_a_hint() {
    let ps = vec![player("Cave", 8), player("Vanguarda Office", 7)];
    assert_eq!(resolve(&ps, Some("CAV")).unwrap().pid, 8);
    assert_eq!(resolve(&ps, Some("7")).unwrap().name, "Vanguarda Office");
    assert!(resolve(&ps, Some("kitchen")).is_none());
    assert_eq!(resolve(&ps, None).unwrap().pid, 7);
    let house = vec![player("Vanguarda Cave", 8), player("Vanguarda Office", 7)];
    assert_eq!(resolve(&house, None).unwrap().name, "Vanguarda Office");
    assert_eq!(resolve(&vec![player("Den", 1), player("Vanguarda Cave", 8)], None).unwrap().pid, 8);
    assert_eq!(resolve(&vec![player("Cave", 8)], None).unwrap().pid, 8);
    assert!(resolve(&vec![], None).is_none());
}

#[test]
fn requests_are_addresses() {
    assert_eq!(set_state(5, "play"), "heos://player/set_play_state?pid=5&state=play");
    assert_eq!(get_state_uri(-5), "heos://player/get_play_state?pid=-5");
    assert_eq!(set_volume(5, 140), "heos://player/set_volume?pid=5&level=100");
    assert_eq!(set_volume(5, -3), "heos://player/set_volume?pid=5&level=0");
    assert_eq!(set_mute(5, true), "heos://player/set_mute?pid=5&state=on");
    assert_eq!(play_next(5), "heos://player/play_next?pid=5");
    assert_eq!(play_previous(5), "heos://player/play_previous?pid=5");
    assert_eq!(get_queue_uri(5), "heos://player/get_queue?pid=5");
    assert_eq!(play_queue(5, 2), "heos://player/play_queue?pid=5&qid=2");
    assert_eq!(remove_from_queue(5, 2), "heos://player/remove_from_queue?pid=5&qid=2");
    assert_eq!(clear_queue(5), "heos://player/clear_queue?pid=5");
    assert_eq!(move_queue_item(5, 2, 3), "heos://player/move_queue_item?pid=5&sqid=2&dqid=3");
}

#[test]
fn toggling_twice_comes_back() {
    assert_eq!(get_state(&objs("{\"heos\":{\"message\":\"pid=1&state=play&x=2\"}}")), Some("play".to_string()));
    assert_eq!(get_state(&objs("{\"heos\":{}}")), None);
    assert_eq!(toggle(Some("play")), "pause");
    assert_eq!(toggle(Some("pause")), "play");
    assert_eq!(toggle(None), "play");
}

#[test]
fn the_speakers_queue_is_read() {
    let q = get_queue(&objs("{\"payload\":[{\"qid\":4,\"song\":\"S\",\"artist\":\"A\"},{}]}"));
    assert_eq!(q.len(), 2);
    assert_eq!((q[0].qid, q[0].song.as_str(), q[0].artist.as_str()), (4, "S", "A"));
    assert_eq!((q[1].qid, q[1].song.as_str(), q[1].mid.as_str()), (0, "?", ""));
}

#[test]
fn stations_are_searched_and_played() {
    assert_eq!(tunein_uri(" Rádio 1 "), "heos://browse/search?sid=3&scid=4&search=R%C3%A1dio%201");
    let hits = tunein_search(&objs(
        "{\"payload\":[{\"mid\":\"s1\",\"name\":\"One\"},{\"mid\":\"\",\"name\":\"x\"},{\"mid\":\"s2\",\"name\":\"Two\",\"playable\":\"no\"}]}",
    ));
    assert_eq!(hits.len(), 1);
    assert_eq!(tunein_play(5, &hits[0]), "heos://browse/play_stream?pid=5&sid=3&mid=s1");
    assert!(tunein_waits(false, 9, 12));
    assert!(!tunein_waits(false, 9, 13));
    assert!(!tunein_waits(true, 2, 3));
    assert!(tunein_waits(true, 1, 3));
}

#[test]
fn notes_read_back() {
    let cast = note_cast("/a b.mp3", "1700000000.25");
    assert_eq!(last_cast(&cast), Some(("/a b.mp3".to_string(), "1700000000.25".to_string())));
    assert_eq!(last_radio_title(&cast), None);
    let radio = note_radio("http://x", "One", "1.5");
    assert_eq!(last_radio_title(&radio), Some("One".to_string()));
    assert_eq!(last_cast(&radio), Some(("http://x".to_string(), "1.5".to_string())));
    assert_eq!(last_cast("{}"), None);
    assert_eq!(heos::last_radio_title("oops"), None);
}
