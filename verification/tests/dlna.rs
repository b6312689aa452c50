use siren::dlna::{
    cast_place, cast_turn, dlna_cast_many, find_dlna_sid, local_music_uri, must_copy, norm, sources_uri, Cast, CastEvent,
    CastStep, Listing, Place, Search,
};
use siren::heos::split_objects;
use siren::json::{parse_or_null, Json};

fn arr(text: &str) -> Vec<Json> {
    match parse_or_null(text) {
        Json::Arr(a) => a,
        _ => panic!("no array"),
    }
}

fn page(n: usize) -> Vec<Json> {
    let items: Vec<String> = (0..n).map(|i| format!("{{\"name\":\"{i}\"}}")).collect();
    split_objects(&format!("{{\"payload\":[{}]}}", items.join(",")))
}

#[test]
fn names_are_compared_by_letters() {
    assert_eq!(norm("Old-Song (Live)!"), "oldsonglive");
}

#[test]
fn the_server_is_found() {
    assert_eq!(sources_uri(), "heos://browse/get_music_sources");
    assert_eq!(local_music_uri(), "heos://browse/browse?sid=1024");
    let sources = split_objects(
        "{\"payload\":[{\"type\":\"x\",\"name\":\"Vanguarda\",\"sid\":1},{\"type\":\"heos_server\",\"name\":\"vanguarda-dlna\",\"sid\":9}]}",
    );
    let local = split_objects("{\"payload\":[{\"name\":\"VANGUARDA-DLNA\",\"sid\":12}]}");
    assert_eq!(find_dlna_sid(&sources, &local), Some(9));
    assert_eq!(find_dlna_sid(&vec![], &local), Some(12));
    assert_eq!(find_dlna_sid(&vec![], &vec![]), None);
}

#[test]
fn a_container_is_listed_by_pages() {
    let mut l = Listing::begin();
    assert_eq!(l.uri(9, "1$4"), "heos://browse/browse?sid=9&cid=1$4&range=0,50");
    assert!(l.dlna_children(&page(50)));
    assert_eq!(l.uri(9, "1$4"), "heos://browse/browse?sid=9&cid=1$4&range=50,50");
    assert!(!l.dlna_children(&page(3)));
    assert_eq!(l.items.len(), 53);
}

#[test]
fn a_listing_ends() {
    let mut l = Listing::begin();
    let mut asks = 1;
    while l.dlna_children(&page(50)) {
        asks += 1;
    }
    assert_eq!(asks, 8);
    assert_eq!(l.items.len(), 400);
}

#[test]
fn an_empty_listing_is_asked_for_whole() {
    let mut l = Listing::begin();
    assert!(l.dlna_children(&vec![]));
    assert_eq!(l.uri(9, "1"), "heos://browse/browse?sid=9&cid=1");
    assert!(!l.dlna_children(&page(2)));
    assert_eq!(l.items.len(), 2);
}

#[test]
fn a_track_is_searched_along_its_path() {
    assert!(Search::begin("/m/ab.mp3").is_none());
    let mut s = Search::begin("/home/u/Music/trove/Old Song.mp3").unwrap();
    assert_eq!(s.next(), Some("64".to_string()));
    let kids = arr(
        "[{\"container\":\"yes\",\"cid\":\"a\",\"name\":\"Pictures\"},{\"container\":\"yes\",\"cid\":\"b\",\"name\":\"Trove\"},{\"type\":\"song\",\"name\":\"Other\",\"mid\":\"m0\"}]",
    );
    assert_eq!(s.dlna_find(&kids), None);
    assert_eq!(s.next(), Some("b".to_string()));
    let songs = arr("[{\"type\":\"song\",\"name\":\"01 old song\",\"mid\":\"m1\"}]");
    assert_eq!(s.dlna_find(&songs), Some("m1".to_string()));
    assert_eq!(s.next(), Some("a".to_string()));
    assert_eq!(s.next(), Some("1".to_string()));
    assert_eq!(s.next(), None);
}

#[test]
fn of_each_sort_the_last_container_is_opened_first() {
    let mut s = Search::begin("/home/u/Music/trove/Old Song.mp3").unwrap();
    assert_eq!(s.next(), Some("64".to_string()));
    let kids = arr(
        "[{\"container\":\"yes\",\"cid\":\"a\",\"name\":\"Trove\"},{\"container\":\"yes\",\"cid\":\"b\",\"name\":\"Video\"},{\"container\":\"yes\",\"cid\":\"c\",\"name\":\"Music\"},{\"container\":\"yes\",\"cid\":\"d\",\"name\":\"Pictures\"}]",
    );
    assert_eq!(s.dlna_find(&kids), None);
    let order: Vec<String> = (0..5).filter_map(|_| s.next()).collect();
    assert_eq!(order, vec!["c", "a", "d", "b", "1"]);
}

#[test]
fn files_are_copied_where_they_are_not_served() {
    assert!(matches!(cast_place("/h/Music/a.mp3", "/h"), Place::Served));
    assert!(matches!(cast_place("/tmp/dlna/a.mp3", "/h"), Place::Served));
    assert!(matches!(cast_place("/srv/a.mp3", "/h"), Place::Copy(p) if p == "/tmp/dlna/a.mp3"));
    assert!(matches!(cast_place("/tmp/dlna-old/a.mp3", "/h"), Place::Copy(p) if p == "/tmp/dlna/a.mp3"));
    assert!(matches!(cast_place("/h/Musical/a.mp3", "/h"), Place::Copy(p) if p == "/tmp/dlna/a.mp3"));
    assert!(matches!(cast_place("/h/Music", "/h"), Place::Served));
    assert!(matches!(cast_place("/", "/h"), Place::NoName));
    assert!(!must_copy(true, Some(5), Some(5)));
    assert!(must_copy(true, Some(4), Some(5)));
    assert!(must_copy(false, None, Some(5)));
    assert!(must_copy(true, None, None));
}

#[test]
fn a_cast_goes_its_way() {
    let mut c = Cast::begin(7, 9, "/m/Old Song.mp3");
    assert!(matches!(c.dlna_cast(CastEvent::Server(None, false)), CastStep::FindServer(2)));
    assert!(matches!(c.dlna_cast(CastEvent::Server(Some(3), false)), CastStep::FindTrack(0, 3)));
    match c.dlna_cast(CastEvent::Track(Some(("1$4".to_string(), "m$1".to_string())))) {
        CastStep::Send(u) => assert_eq!(u, "heos://browse/add_to_queue?pid=7&sid=3&cid=1$4&mid=m$1&aid=4"),
        _ => panic!("not sent"),
    }
    match c.dlna_cast(CastEvent::Answer(false)) {
        CastStep::Over(0, Some(e)) => assert_eq!(e, "queue rejected for '1$4/m$1' (sid 3)"),
        _ => panic!("not over"),
    }
    assert!(matches!(c.dlna_cast(CastEvent::Answer(true)), CastStep::Over(0, None)));
}

#[test]
fn a_cast_without_a_server_ends() {
    let mut c = Cast::begin(7, 1, "/m/x.mp3");
    c.dlna_cast(CastEvent::Server(None, false));
    match c.dlna_cast(CastEvent::Server(None, false)) {
        CastStep::Over(0, Some(e)) => {
            assert_eq!(e, "DLNA VANGUARDA-DLNA not found — is minidlna on 192.168.8.186:8200 running?")
        }
        _ => panic!("not over"),
    }
}

#[test]
fn a_fresh_file_is_looked_for_twelve_times() {
    let mut c = Cast::begin(7, 1, "/m/Old Song.mp3");
    c.dlna_cast(CastEvent::Server(Some(3), true));
    let mut asks = 1;
    loop {
        match c.dlna_cast(CastEvent::Track(None)) {
            CastStep::FindTrack(5, 3) => asks += 1,
            CastStep::Over(5, Some(e)) => {
                assert_eq!(e, "track not in DLNA for 'Old Song' (sid 3)");
                break;
            }
            _ => panic!("astray"),
        }
    }
    assert_eq!(asks, 12);
    let mut old = Cast::begin(7, 1, "/m/x.mp3");
    old.dlna_cast(CastEvent::Server(Some(3), false));
    assert!(matches!(old.dlna_cast(CastEvent::Track(None)), CastStep::Over(0, Some(_))));
}

#[test]
fn several_casts_are_counted() {
    assert_eq!(cast_turn(0), (1, 0));
    assert_eq!(cast_turn(4), (3, 1500));
    assert_eq!(dlna_cast_many(&vec![true, false, true]), (2, 3));
    assert_eq!(dlna_cast_many(&vec![]), (0, 0));
}
