use siren::playlist;
use siren::playlist::{delete, files_to_delete, find, load, names, save};
use siren::queue::{new_item, QueueItem};

fn s(v: &[&str]) -> Vec<String> {
    v.iter().map(|x| x.to_string()).collect()
}

#[test]
fn a_playlist_has_a_file() {
    assert_eq!(playlist::file("mix"), "mix.json");
    assert_eq!(files_to_delete("mix"), s(&["mix.json", "mix.m3u"]));
    assert!(delete(&vec![false, true]));
    assert!(!delete(&vec![false, false]));
}

#[test]
fn a_saved_playlist_loads_back() {
    let items: Vec<QueueItem> = vec![new_item("/a b.mp3"), new_item("/c.ogg")];
    let text = save("mix", &items, "1700000000");
    assert!(text.contains("\"name\": \"mix\"") && text.contains("\"created\": \"1700000000\""));
    let back = load(&text);
    assert_eq!(back.len(), 2);
    assert_eq!(back[0].path, "/a b.mp3");
    assert_eq!(back[0].display, "a b");
    assert!(load("[]").is_empty());
    assert!(load("{\"tracks\": 3}").is_empty());
}

#[test]
fn tracks_of_any_duration_load_back() {
    let mut items: Vec<QueueItem> = vec![new_item("/a.mp3"), new_item(""), new_item("/c.ogg")];
    items[0].duration = "183.52".to_string();
    items[0].title = "T \"x\"\n".to_string();
    items[2].duration = "1.7976931348623157e308".to_string();
    items[2].artist = "É".to_string();
    let back = load(&save("mix", &items, "1"));
    assert_eq!(back.len(), 2);
    assert_eq!((back[0].path.as_str(), back[0].title.as_str()), ("/a.mp3", "T \"x\"\n"));
    assert_eq!(back[0].duration, "183.52");
    assert_eq!((back[1].path.as_str(), back[1].artist.as_str()), ("/c.ogg", "É"));
}

#[test]
fn names_are_sorted_stems() {
    assert_eq!(names(&s(&["b.json", "a.json", "c.m3u", "Z.json", "json"])), s(&["Z", "a", "b"]));
}

#[test]
fn a_name_is_found_exactly_or_by_a_single_prefix() {
    let all = s(&["Chill", "chill out", "Dance"]);
    assert_eq!(find(&all, "chill"), Some("Chill".to_string()));
    assert_eq!(find(&all, "DAN"), Some("Dance".to_string()));
    assert_eq!(find(&all, "chi"), None);
    assert_eq!(find(&all, "rock"), None);
    let twins = s(&["MIX", "Mix"]);
    assert_eq!(find(&twins, "Mix"), Some("Mix".to_string()));
    assert_eq!(find(&twins, "MIX"), Some("MIX".to_string()));
    assert_eq!(find(&twins, "mix"), Some("MIX".to_string()));
}
