use siren::meta::{ffprobe_args, ffprobe_tags, format_tags, legacy_paths, Cache};

fn hit(a: &str, t: &str) -> Option<(String, String)> {
    Some((a.to_string(), t.to_string()))
}

#[test]
fn tags_are_shown() {
    assert_eq!(format_tags("A", "T", "/x.mp3"), "A - T");
    assert_eq!(format_tags("", "T", "/x.mp3"), "T");
    assert_eq!(format_tags("A", "", "/x.mp3"), "A");
    assert_eq!(format_tags("", "", "/x.mp3"), "x");
}

#[test]
fn a_probe_is_asked_and_read() {
    assert_eq!(ffprobe_args("/x"), vec!["-v", "quiet", "-print_format", "json", "-show_format", "/x"]);
    let out = br#"{"format":{"tags":{"artist":" ","ALBUMARTIST":" Band ","TIT2":"Song"}}}"#.to_vec();
    assert_eq!(ffprobe_tags(&out), hit("Band", "Song"));
    assert_eq!(ffprobe_tags(&br#"{"format":{"tags":{"genre":"x"}}}"#.to_vec()), None);
    assert_eq!(ffprobe_tags(&b"{}".to_vec()), None);
    assert_eq!(ffprobe_tags(&b"oops".to_vec()), None);
}

#[test]
fn what_is_stored_is_found_until_the_file_changes() {
    let mut c = Cache::new();
    c.store("/a", 5, "A", "T");
    c.store("/b", 6, "B", "U");
    c.store("/a", 7, "A2", "T2");
    assert_eq!(c.lookup("/a", 7), hit("A2", "T2"));
    assert_eq!(c.lookup("/a", 5), None);
    assert_eq!(c.lookup("/b", 6), hit("B", "U"));
    assert_eq!(c.display_cached("file:///b", 6), "B - U");
    assert_eq!(c.display_cached("/zz.mp3", 1), "zz");
    assert_eq!(c.entries.len(), 2);
}

#[test]
fn two_probes_run_at_a_time() {
    let mut c = Cache::new();
    assert!(c.warm("/a", 1));
    assert!(!c.warm("/a", 1));
    assert!(c.warm("/b", 1));
    assert!(!c.warm("/c", 1));
    c.probe_done("/a", 1, hit("A", "T"));
    assert!(!c.warm("/a", 1));
    assert!(c.warm("/c", 1));
    c.probe_done("/b", 1, None);
    assert_eq!(c.lookup("/b", 1), hit("", ""));
}

#[test]
fn showing_may_ask_for_a_probe() {
    let mut c = Cache::new();
    assert_eq!(c.display("/x/y.mp3", 3), ("y".to_string(), true));
    assert_eq!(c.display("/x/y.mp3", 3), ("y".to_string(), false));
    assert!(c.needs_probe("/z", 1));
    assert_eq!(c.display_sync("/z", 1, hit("A", "T")), "A - T");
    assert!(!c.needs_probe("/z", 1));
    assert_eq!(c.tags_for("/z", 1), ("A".to_string(), "T".to_string(), false));
    assert_eq!(c.tags_for("/w", 1), ("".to_string(), "".to_string(), true));
    assert_eq!(c.tags_for_sync("/v", 1, None), ("".to_string(), "".to_string()));
}

#[test]
fn the_file_of_tags_reads_back() {
    let mut c = Cache::new();
    c.store("/a:b", 5, "A", "T");
    let text = c.save_disk();
    assert_eq!(text, "{\"/a:b\":{\"a\":\"A\",\"m\":5,\"t\":\"T\"}}");
    let mut d = Cache::new();
    d.load_disk(&text, &vec![]);
    assert_eq!(d.lookup("/a:b", 5), hit("A", "T"));
}

#[test]
fn a_saved_cache_loads_what_outlives_a_restart() {
    let mut c = Cache::new();
    c.store("/z", 7, "Z", "");
    c.store("/b", 5, "B", "T");
    c.store("/untagged", 5, "", "");
    c.store("/stem.mp3", 5, "", "stem");
    c.store("/gone", -1, "G", "T");
    let text = c.save_disk();
    assert!(text.starts_with("{\"/b\":{\"a\":\"B\",\"m\":5,\"t\":\"T\"},\"/gone\""));
    let mut d = Cache::new();
    d.load_disk(&text, &vec![]);
    assert_eq!(d.lookup("/z", 7), hit("Z", ""));
    assert_eq!(d.lookup("/z", 8), None);
    assert_eq!(d.lookup("/b", 5), hit("B", "T"));
    assert_eq!(d.lookup("/untagged", 5), None);
    assert_eq!(d.lookup("/stem.mp3", 5), None);
    assert_eq!(d.lookup("/gone", -1), None);
    assert_eq!(d.entries.len(), 2);
}

#[test]
fn older_entries_are_understood() {
    let raw = r#"{"/a.mp3:9":{"a":"A","t":"T"},"/p.mp3":{"m":3,"d":"x"},"/s.mp3":{"m":3,"a":"","t":"s"},
                  "/n.mp3":{"a":"A","t":"T"}}"#;
    let mut paths = legacy_paths(raw);
    paths.sort();
    assert_eq!(paths, vec!["/a.mp3"]);
    let mut c = Cache::new();
    c.load_disk(raw, &vec!["/a.mp3".to_string()]);
    assert_eq!(c.lookup("/a.mp3", 9), hit("A", "T"));
    assert_eq!(c.entries.len(), 1);
}
