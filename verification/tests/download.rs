use siren::download::{
    audio_dir, available_formats, cc_item_url, choose_format, confirm, curl_args, do_download_inner, done_line,
    download_file, ext_of, fetch_line, fmt_size, format_question, formats_among, item_meta, max_total, must_fetch, no_confirm,
    part_name, pick_ccmixter_targets, pick_targets, plan_download, progress_word, prompt_format, question, sanitize_ident,
    video_dir, AfterFetch, Dirs, Target, Work,
};

fn s(v: &[&str]) -> Vec<String> {
    v.iter().map(|x| x.to_string()).collect()
}

fn dirs() -> Dirs {
    Dirs { audio: "/a".to_string(), video: "/v".to_string() }
}

fn target(name: &str, size: u64) -> Target {
    Target { url: "u".to_string(), name: name.to_string(), dir: "/d".to_string(), size }
}

fn names(r: Result<Vec<Target>, String>) -> Vec<String> {
    match r {
        Ok(v) => v.iter().map(|t| t.name.clone()).collect(),
        Err(e) => panic!("{e}"),
    }
}

const ITEM: &str = r#"{"mediatype":"audio","files":[{"name":"disc/01 One.mp3","size":1000},{"name":"disc/01 One_64kb.mp3","size":5},
  {"name":"02 Two.flac","size":7},{"name":"02 Two.mp3"},{"name":"cover.jpg"},{"x":1},{"name":"clip.mp4"}]}"#;

#[test]
fn formats_are_endings() {
    assert_eq!(ext_of("A.MP3"), Some("mp3".to_string()));
    assert_eq!(ext_of("a.webm"), Some("webm".to_string()));
    assert_eq!(ext_of("a.jpg"), None);
    assert_eq!(formats_among(&s(&["b.wav", "a.mp3", "c.mp4", "d.MP3", "e.flac"])), s(&["mp3", "flac", "wav"]));
}

#[test]
fn downloads_have_directories() {
    assert_eq!(audio_dir(None, "/h"), "/h/Music/trove");
    assert_eq!(audio_dir(Some("/x".to_string()), "/h"), "/x");
    assert_eq!(video_dir(None, "/h"), "/h/Videos/trove");
    assert_eq!(sanitize_ident("a/b é:c.d-e_f"), "a_b_é_c.d-e_f");
    assert_eq!(sanitize_ident(&"x".repeat(100)).len(), 80);
}

#[test]
fn targets_of_an_archive_item() {
    assert_eq!(item_meta("a b"), "https://archive.org/metadata/a%20b");
    let all = pick_targets("a b", "", None, ITEM, &dirs()).unwrap_or_default();
    assert_eq!(all.len(), 5);
    assert_eq!(all[0].name, "01 One.mp3");
    assert_eq!(all[0].url, "https://archive.org/download/a%20b/disc/01%20One.mp3");
    assert_eq!(all[0].dir, "/a/a_b");
    assert_eq!((all[0].size, all[3].size), (1000, 0));
}

#[test]
fn one_file_per_song_in_a_format() {
    assert_eq!(names(pick_targets("i", "", Some("MP3"), ITEM, &dirs())), s(&["01 One.mp3", "02 Two.mp3"]));
    assert_eq!(names(pick_targets("i", "", Some("flac"), ITEM, &dirs())), s(&["02 Two.flac"]));
    assert_eq!(names(pick_targets("i", "", Some("all"), ITEM, &dirs())).len(), 5);
}

fn listing(files: &[&str]) -> String {
    let f: Vec<String> = files.iter().map(|n| format!("{{\"name\":\"{n}\"}}")).collect();
    format!("{{\"files\":[{}]}}", f.join(","))
}

#[test]
fn numbered_songs_are_kept_apart() {
    let plain = listing(&["track01.mp3", "track02.mp3"]);
    assert_eq!(names(pick_targets("i", "audio", Some("mp3"), &plain, &dirs())), s(&["track01.mp3", "track02.mp3"]));
    let tagged = listing(&["t01_64kb.mp3", "t02_64kb.mp3", "t01.mp3", "t02_vbr.mp3", "t1_1411kb.mp3", "t1.mp3"]);
    assert_eq!(
        names(pick_targets("i", "audio", Some("mp3"), &tagged, &dirs())),
        s(&["t01_64kb.mp3", "t02_64kb.mp3", "t1_1411kb.mp3"])
    );
}

#[test]
fn versions_of_a_song_are_one() {
    let text = listing(&["Old Song.mp3", "old_song_64kb.mp3", "OldSong-VBR.mp3", "old song 128k.mp3", "old song 1411kb.mp3", "Rock.mp3", "Roc.mp3"]);
    assert_eq!(names(pick_targets("i", "audio", Some("mp3"), &text, &dirs())), s(&["Old Song.mp3", "Rock.mp3", "Roc.mp3"]));
}

#[test]
fn videos_come_alone() {
    let v = pick_targets("i", "Movies", None, ITEM, &dirs()).unwrap_or_default();
    assert_eq!(v.len(), 1);
    assert_eq!(v[0].dir, "/v/i");
    let only = "{\"files\":[{\"name\":\"a.mp4\"},{\"name\":\"b.mp4\"}]}";
    assert_eq!(pick_targets("i", "audio", None, only, &dirs()).unwrap_or_default()[0].dir, "/v/i");
    assert!(names(pick_targets("i", "", None, "{}", &dirs())).is_empty());
}

#[test]
fn targets_are_bounded() {
    let files: Vec<String> = (0..60).map(|i| format!("{{\"name\":\"{i}x.mp3\"}}")).collect();
    let text = format!("{{\"files\":[{}]}}", files.join(","));
    assert_eq!(names(pick_targets("i", "audio", None, &text, &dirs())).len(), 40);
}

#[test]
fn targets_of_a_ccmixter_item() {
    assert_eq!(cc_item_url("ccmixter:7"), "https://ccmixter.org/api/query?f=json&ids=7");
    let text = r#"[{"files":[{"file_name":"a/x.mp3","download_url":"http://x","file_rawsize":9},
        {"file_name":"y.zip","download_url":"http://y"},{"file_name":"z.mp3"}]}]"#;
    let v = pick_ccmixter_targets("ccmixter:7", None, text, "/a").unwrap_or_default();
    assert_eq!(v.len(), 1);
    assert_eq!((v[0].name.as_str(), v[0].dir.as_str(), v[0].size), ("x.mp3", "/a/ccmixter-7", 9));
    assert_eq!(names(pick_ccmixter_targets("ccmixter:7", Some("all"), text, "/a")), s(&["x.mp3", "y.zip"]));
    match pick_ccmixter_targets("ccmixter:7", None, "[]", "/a") {
        Err(e) => assert_eq!(e, "ccmixter item not found: 7"),
        Ok(_) => panic!("found"),
    }
    match pick_ccmixter_targets("ccmixter:7", None, "<", "/a") {
        Err(e) => assert!(e.starts_with("json: ")),
        Ok(_) => panic!("read"),
    }
}

#[test]
fn formats_are_offered_in_order() {
    assert_eq!(available_formats("i", ITEM, &dirs()), Ok(s(&["mp3", "flac"])));
    match plan_download("i", "", ITEM, &dirs()) {
        Ok((t, f)) => {
            assert_eq!(t.len(), 5);
            assert_eq!(f, s(&["mp3", "flac"]));
        }
        Err(e) => panic!("{e}"),
    }
}

#[test]
fn sizes_are_shown_as_the_standard_library_rounds() {
    fn by_float(n: u64) -> String {
        if n < 1024 {
            format!("{n} B")
        } else if n < 1024 * 1024 {
            format!("{:.0} KB", n as f64 / 1024.0)
        } else if n < 1024 * 1024 * 1024 {
            format!("{:.1} MB", n as f64 / 1024.0 / 1024.0)
        } else {
            format!("{:.2} GB", n as f64 / 1024.0 / 1024.0 / 1024.0)
        }
    }
    let mut n: u64 = 1;
    while n < 1u64 << 61 {
        for m in [n - 1, n, n + 1, n + n / 2, n + n / 3, n + 512, n + 52429] {
            assert_eq!(fmt_size(m), by_float(m), "{m}");
        }
        n = n * 3 + 7;
    }
    for m in [1536u64, 2560, 1024 * 1024, 1572864, 1024 * 1024 + 52428, 1024 * 1024 * 1024 * 5 / 2] {
        assert_eq!(fmt_size(m), by_float(m), "{m}");
    }
    assert_eq!(fmt_size(1536), "2 KB");
    assert_eq!(fmt_size(2560), "2 KB");
}

#[test]
fn limits_come_from_the_environment() {
    assert_eq!(max_total(None), 0);
    assert_eq!(max_total(Some("12")), 12);
    assert_eq!(max_total(Some("x")), 0);
    assert!(no_confirm("yes") && no_confirm("1") && !no_confirm("") && !no_confirm("Yes"));
}

/// What comes next of targets that were picked, before anything was asked or fetched.
fn begun(targets: Vec<Target>, cap: u64, assume_yes: bool) -> Work {
    do_download_inner("i", &Ok(targets), cap, assume_yes, None, &vec![])
}

#[test]
fn downloads_are_cleared() {
    match begun(vec![], 0, false) {
        Work::Over(Err(e)) => assert_eq!(
            e,
            "No audio/video files found (metadata only?). Browse: https://archive.org/details/i"
        ),
        _ => panic!("cleared"),
    }
    match begun(vec![target("a", 2048)], 1024, true) {
        Work::Over(Err(e)) => assert_eq!(e, "refusing: 2 KB exceeds TROVE_MAX_TOTAL=1 KB"),
        _ => panic!("cleared"),
    }
    match do_download_inner("i", &Err("oops".to_string()), 0, true, None, &vec![]) {
        Work::Over(Err(e)) => assert_eq!(e, "metadata error: oops"),
        _ => panic!("cleared"),
    }
    assert!(matches!(begun(vec![target("a", 5)], 0, false), Work::Fetch(0)));
    match begun(vec![target("a", 5), target("b", 6)], 0, false) {
        Work::Ask(q) => assert_eq!(q, "Download 2 file(s) · 11 B → /d?"),
        _ => panic!("not asked"),
    }
    assert!(matches!(begun(vec![target("a", 33554433)], 0, false), Work::Ask(_)));
    assert!(matches!(begun(vec![target("a", 33554432)], 0, false), Work::Fetch(0)));
    assert!(matches!(begun(vec![target("a", 5), target("b", 6)], 11, true), Work::Fetch(0)));
}

#[test]
fn a_refused_consent_skips() {
    let two = Ok(vec![target("a", 5), target("b", 6)]);
    match do_download_inner("i", &two, 0, false, Some(false), &vec![]) {
        Work::Over(Err(e)) => assert_eq!(e, "skipped."),
        _ => panic!("not skipped"),
    }
    assert!(matches!(do_download_inner("i", &two, 0, false, Some(true), &vec![]), Work::Fetch(0)));
}

#[test]
fn every_target_is_told_of() {
    let list = vec![target("a", 5), target("b", 6), target("c", 7)];
    let picked = Ok(vec![target("a", 5), target("b", 6), target("c", 7)]);
    let mut results = Vec::new();
    let mut told = Vec::new();
    for (i, good) in [true, false, true].into_iter().enumerate() {
        assert!(matches!(do_download_inner("i", &picked, 0, true, None, &results), Work::Fetch(k) if k == i));
        results.push(good);
        let w = progress_word(&list, &results);
        told.push((w.place, w.count, w.name, w.good));
    }
    assert_eq!(told, vec![(1, 3, "a".to_string(), true), (2, 3, "b".to_string(), false), (3, 3, "c".to_string(), true)]);
    match do_download_inner("i", &picked, 0, true, None, &results) {
        Work::Over(Ok(end)) => assert_eq!(end, (2, 3, "/d".to_string())),
        _ => panic!("not over"),
    }
}

#[test]
fn questions_have_a_default() {
    assert_eq!(question("Go?", false), "Go?[y/N] ");
    assert_eq!(question("Go?", true), "Go?[Y/n] ");
    assert!(confirm(Some(" Yes\n"), false));
    assert!(!confirm(Some("no"), true));
    assert!(confirm(Some("\n"), true));
    assert!(!confirm(None, true));
    assert_eq!(done_line(1, 2, "T", "/d"), "Done: 1/2  (T → /d)");
}

#[test]
fn one_file_is_fetched() {
    assert!(!must_fetch(true, Some(1)));
    assert!(must_fetch(true, Some(0)) && must_fetch(false, None) && must_fetch(true, None));
    assert_eq!(part_name("a.mp3"), "a.mp3.part");
    assert_eq!(fetch_line("a", 1536), "  ↓ a  2 KB");
    assert_eq!(fetch_line("a", 0), "  ↓ a  ?");
    let args = curl_args("https://ccmixter.org/x", "/p", true);
    assert!(args.contains(&"-sS".to_string()) && args.contains(&"https://ccmixter.org/".to_string()));
    assert_eq!(args[args.len() - 3..], s(&["-o", "/p", "https://ccmixter.org/x"])[..]);
    assert!(!curl_args("https://archive.org/x", "/p", false).contains(&"-e".to_string()));
    assert_eq!(download_file(true, true, Some(0)), AfterFetch::Rename);
    assert_eq!(download_file(false, true, Some(0)), AfterFetch::Remove);
    assert_eq!(download_file(false, true, Some(3)), AfterFetch::Keep);
    assert_eq!(download_file(false, true, None), AfterFetch::Keep);
}

#[test]
fn a_format_is_chosen() {
    let f = s(&["mp3", "flac"]);
    assert_eq!(format_question(&f), Some("format (mp3/flac)? [mp3] ".to_string()));
    assert_eq!(format_question(&s(&["mp3"])), None);
    assert_eq!(prompt_format(&f, Some(" FLAC\n")), ("flac".to_string(), false));
    assert_eq!(prompt_format(&f, Some("all")), ("all".to_string(), false));
    assert_eq!(prompt_format(&f, Some("")), ("mp3".to_string(), false));
    assert_eq!(prompt_format(&f, None), ("mp3".to_string(), false));
    assert_eq!(prompt_format(&f, Some("wav")), ("mp3".to_string(), true));
    assert_eq!(prompt_format(&s(&[]), None), ("all".to_string(), false));
    assert!(choose_format(&f) && !choose_format(&s(&["mp3"])));
}
