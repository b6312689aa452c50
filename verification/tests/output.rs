use siren::config::SirenConfig;
use siren::heos::TuneinHit;
use siren::output::{
    is_url, play_from, pool_hits, queries_for, rank_query, report_files, report_local, report_station, speaker_target, tunein_find,
    with_folded, Route,
};
use siren::queue::Session;

fn s(v: &[&str]) -> Vec<String> {
    v.iter().map(|x| x.to_string()).collect()
}

fn hit(mid: &str, name: &str) -> TuneinHit {
    TuneinHit { mid: mid.to_string(), name: name.to_string() }
}

fn heos() -> SirenConfig {
    let mut c = SirenConfig::default();
    c.set("audio_output", "heos").unwrap();
    c
}

#[test]
fn streams_are_told_from_files() {
    assert!(is_url("http://x") && is_url("https://x"));
    assert!(!is_url("/http://x") && !is_url("file:///x"));
}

#[test]
fn a_title_is_searched_in_several_ways() {
    assert_eq!(queries_for(" Radio Comercial 97.4 FM "), s(&["Radio Comercial 97.4 FM", "Radio Comercial", "Radio", "Comercial"]));
    assert_eq!(queries_for("Batida"), s(&["Batida"]));
    assert_eq!(with_folded(&s(&["OXIGÉNIO", "FM"]), &s(&["oxigenio", "fm"])), s(&["OXIGÉNIO", "FM", "oxigenio"]));
}

#[test]
fn hits_are_pooled_once() {
    let mut pool = vec![hit("1", "One")];
    pool_hits(&mut pool, &vec![hit("2", "Two"), hit("1", "Uno"), hit("2", "Dos")]);
    assert_eq!(pool.iter().map(|h| h.name.as_str()).collect::<Vec<_>>(), vec!["One", "Two"]);
}

#[test]
fn telling_words_rank() {
    assert_eq!(rank_query(&s(&["oxigenio", "102", "6", "fm"])), Some("oxigenio".to_string()));
    assert_eq!(rank_query(&s(&["102", "mhz"])), None);
}

#[test]
fn only_a_close_station_is_taken() {
    let hits = vec![hit("1", "One"), hit("2", "Two")];
    assert_eq!(tunein_find(&hits, Some("Two"), 3, 9, 9).unwrap().mid, "2");
    assert_eq!(tunein_find(&hits, Some("Two"), 9, 3, 9).unwrap().mid, "2");
    assert_eq!(tunein_find(&hits, Some("Two"), 9, 9, 2).unwrap().mid, "2");
    assert!(tunein_find(&hits, Some("Two"), 4, 4, 3).is_none());
    assert!(tunein_find(&hits, Some("Three"), 0, 0, 0).is_none());
    assert!(tunein_find(&hits, None, 0, 0, 0).is_none());
}

#[test]
fn the_speaker_is_hinted_by_the_configuration() {
    let mut c = heos();
    assert_eq!(speaker_target(&c), Some("Vanguarda Office".to_string()));
    c.audio_speaker = "  ".to_string();
    assert_eq!(speaker_target(&c), None);
}

#[test]
fn the_queue_is_routed() {
    let mut t = Session::new();
    assert!(matches!(play_from(&heos(), &t, 0, true), Route::Refused(m) if m == "Queue empty."));
    t.queue.add("/a.mp3", false);
    t.queue.add("http://radio/x", false);
    t.queue.add("/b.mp3", false);
    assert!(matches!(play_from(&SirenConfig::default(), &t, 0, false), Route::Local(p) if p.label == "a"));
    assert!(matches!(play_from(&heos(), &t, 0, false), Route::Refused(m) if m == "no speaker found"));
    match play_from(&heos(), &t, 0, true) {
        Route::Files(f, skipped) => {
            assert_eq!(f, s(&["/a.mp3", "/b.mp3"]));
            assert_eq!(skipped, 1);
        }
        _ => panic!("no files"),
    }
    t.queue.items[1].display = "".to_string();
    assert!(matches!(play_from(&heos(), &t, 1, true), Route::Station(title, _) if title == "http://radio/x"));
    t.queue.items[1].display = "One".to_string();
    assert!(matches!(play_from(&heos(), &t, 1, true), Route::Station(title, url) if title == "One" && url == "http://radio/x"));
}

#[test]
fn what_was_played_is_reported() {
    assert_eq!(report_station("T", None, true, "Office"), Err("no TuneIn match: T (try output local)".to_string()));
    assert_eq!(report_station("T", Some("One"), true, "Office"), Ok("▶ One on Office".to_string()));
    assert_eq!(report_station("T", Some("One"), false, "Office"), Err("TuneIn play failed: One".to_string()));
    assert_eq!(report_local(true), Ok("playing from queue".to_string()));
    assert_eq!(report_local(false), Err("Queue empty.".to_string()));
    assert_eq!(report_files(2, 3, 0, "Office"), Ok("playing queue (2/3 on Office)".to_string()));
    assert_eq!(
        report_files(0, 3, 1, "Office"),
        Err("playing queue (0/3 on Office) · 1 stream(s) skipped (files only)".to_string())
    );
}
