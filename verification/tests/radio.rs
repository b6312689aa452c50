use siren::json::parse_or_null;
use siren::radio::{
    about_text, both_down, by_country, by_country_url, by_name, cached_countries, countries, countries_url, curl_text,
    fallback_tokens, favs, is_fav, last_country, merge, parse_stations, search, search_url, set_country, store_countries,
    to_queue_item, to_station, toggle_fav, RadioState, SearchStep, Station,
};

fn station(uuid: &str, name: &str, url: &str) -> Station {
    Station {
        uuid: uuid.to_string(),
        name: name.to_string(),
        url: url.to_string(),
        codec: "MP3".to_string(),
        bitrate: 128,
        tags: "".to_string(),
        country: "Portugal".to_string(),
    }
}

fn names(v: &[Station]) -> Vec<&str> {
    v.iter().map(|s| s.name.as_str()).collect()
}

#[test]
fn the_second_server_stands_in() {
    assert_eq!(
        curl_text("https://de1.api.radio-browser.info/json/x"),
        Some("https://de2.api.radio-browser.info/json/x".to_string())
    );
    assert_eq!(curl_text("https://other/json"), None);
    assert_eq!(both_down("http exit status: 22"), "radio api down (http exit status: 22)");
}

#[test]
fn a_station_needs_an_address() {
    let v = parse_or_null("{\"url_resolved\":\"\",\"url\":\"http://a\",\"name\":\" N \",\"bitrate\":64,\"stationuuid\":\"u\"}");
    let s = to_station(&v).unwrap();
    assert_eq!((s.url.as_str(), s.name.as_str(), s.bitrate, s.uuid.as_str()), ("http://a", "N", 64, "u"));
    assert!(to_station(&parse_or_null("{\"url\":\"ftp://a\"}")).is_none());
    assert!(to_station(&parse_or_null("{\"url\":\"http://a\",\"lastcheckok\":0}")).is_none());
    assert_eq!(to_station(&parse_or_null("{\"url\":\"https://a\",\"lastcheckok\":1}")).unwrap().name, "https://a");
}

#[test]
fn stations_come_by_name() {
    let text = "[{\"url\":\"http://1\",\"name\":\"beta\"},{\"url\":\"http://2\",\"name\":\"Alpha\"},{\"url\":\"x\"}]";
    assert_eq!(names(&parse_stations(text)), vec!["Alpha", "beta"]);
    assert_eq!(names(&by_country(text)), vec!["Alpha", "beta"]);
    assert!(parse_stations("{}").is_empty());
    assert_eq!(names(&by_name(vec![station("1", "b", "u"), station("2", "A", "v")])), vec!["A", "b"]);
}

#[test]
fn stations_are_asked_for() {
    assert_eq!(
        by_country_url("Costa Rica", 20, 40),
        "https://de1.api.radio-browser.info/json/stations/bycountry/Costa%20Rica?order=name&limit=20&offset=40"
    );
    assert_eq!(
        search_url("laut fm", 20, 0),
        "https://de1.api.radio-browser.info/json/stations/search?name=laut%20fm&order=name&limit=20&offset=0"
    );
    assert_eq!(
        countries_url(),
        "https://de1.api.radio-browser.info/json/countries?order=stationcount&reverse=true"
    );
}

#[test]
fn a_phrase_without_hits_is_searched_by_words() {
    assert_eq!(fallback_tokens(" laut lofi ", 0, 0), vec!["laut", "lofi"]);
    assert!(fallback_tokens("laut lofi", 1, 0).is_empty());
    assert!(fallback_tokens("laut lofi", 0, 20).is_empty());
    assert!(fallback_tokens(" laut ", 0, 0).is_empty());
}

#[test]
fn merged_stations_are_listed_once() {
    let mut v = vec![station("1", "b", "u1")];
    merge(&mut v, &vec![station("1", "x", "u9"), station("2", "y", "u1"), station("", "a", "u3"), station("", "c", "u4")]);
    assert_eq!(names(&v), vec!["b", "a", "c"]);
}

fn fetch(s: SearchStep) -> String {
    match s {
        SearchStep::Fetch(url) => url,
        SearchStep::Found(_) => panic!("found already"),
    }
}

fn found(s: SearchStep) -> Vec<String> {
    match s {
        SearchStep::Found(v) => v.iter().map(|x| x.name.clone()).collect(),
        SearchStep::Fetch(url) => panic!("{url}"),
    }
}

#[test]
fn a_search_takes_what_the_query_finds() {
    let mut texts = vec![];
    assert_eq!(fetch(search("lo fi", 20, 0, &texts)), search_url("lo fi", 20, 0));
    texts.push("[{\"url\":\"http://1\",\"name\":\"b\"},{\"url\":\"http://2\",\"name\":\"A\"}]".to_string());
    assert_eq!(found(search("lo fi", 1, 0, &texts)), vec!["A", "b"]);
    let none = vec!["[]".to_string()];
    assert!(found(search("lofi", 20, 0, &none)).is_empty());
    assert_eq!(fetch(search("lo fi", 20, 20, &vec![])), search_url("lo fi", 20, 20));
    assert!(found(search("lo fi", 20, 20, &none)).is_empty());
}

#[test]
fn a_search_without_hits_goes_word_by_word() {
    let mut texts = vec!["[]".to_string()];
    assert_eq!(fetch(search("laut lofi", 2, 0, &texts)), search_url("laut", 2, 0));
    texts.push("[{\"url\":\"http://1\",\"name\":\"c\"},{\"url\":\"http://2\",\"name\":\"B\"}]".to_string());
    assert_eq!(fetch(search("laut lofi", 2, 0, &texts)), search_url("lofi", 2, 0));
    texts.push("[{\"url\":\"http://2\",\"name\":\"twice\"},{\"url\":\"http://3\",\"name\":\"a\"}]".to_string());
    assert_eq!(found(search("laut lofi", 2, 0, &texts)), vec!["a", "B"]);
    assert_eq!(found(search("laut lofi", 9, 0, &texts)), vec!["a", "B", "c"]);
}

#[test]
fn countries_are_read_and_stored() {
    let cs = match countries("[{\"name\":\" Spain \",\"stationcount\":3},{\"name\":\" \"},{\"name\":\"chile\"}]") {
        Ok(c) => c,
        Err(e) => panic!("{e}"),
    };
    assert_eq!(cs.iter().map(|c| (c.name.as_str(), c.count)).collect::<Vec<_>>(), vec![("chile", 0), ("Spain", 3)]);
    let text = store_countries(&cs, 1000);
    let back = cached_countries(&text, Some(1000 + 604799)).unwrap();
    assert_eq!(back.iter().map(|c| (c.name.as_str(), c.count)).collect::<Vec<_>>(), vec![("chile", 0), ("Spain", 3)]);
    assert!(cached_countries(&text, Some(1000 + 604800)).is_none());
    assert!(cached_countries(&text, Some(5)).is_some());
    assert!(cached_countries(&text, None).is_none());
    assert!(cached_countries("{}", Some(5)).is_none());
    match countries("<") {
        Err(e) => assert!(e.starts_with("json: ")),
        Ok(_) => panic!("read"),
    }
}

#[test]
fn a_station_becomes_a_queue_item() {
    let it = to_queue_item(&station("1", "One", "http://x"));
    assert_eq!((it.path.as_str(), it.display.as_str(), it.artist.as_str()), ("http://x", "One", "Radio · Portugal"));
    let mut s = station("1", "One", "http://x");
    s.country = "".to_string();
    assert_eq!(to_queue_item(&s).artist, "Radio");
}

#[test]
fn favourites_are_toggled() {
    let mut st = RadioState { country: None, favs: Vec::new() };
    let s = station("1", "One", "http://x");
    assert!(toggle_fav(&mut st, &s));
    assert!(is_fav(&st, &s));
    assert!(toggle_fav(&mut st, &station("2", "Alpha", "http://y")));
    assert_eq!(names(&favs(&st)), vec!["Alpha", "One"]);
    assert!(!toggle_fav(&mut st, &station("9", "Other", "http://x")));
    assert!(!is_fav(&st, &s));
    assert!(toggle_fav(&mut st, &s));
    assert!(!toggle_fav(&mut st, &s));
    assert_eq!(last_country(&st), None);
    set_country(&mut st, "Chile");
    assert_eq!(last_country(&st), Some("Chile".to_string()));
    assert!(!about_text().is_empty());
}
