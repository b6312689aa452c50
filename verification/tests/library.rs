use siren::config::SirenConfig;
use siren::library::{
    expand_home, fuzzy_score, is_audio_path, library_roots, resolve_library, resolve_play_args, scan_library, tokens, visit,
    Node, Root,
};

fn s(v: &[&str]) -> Vec<String> {
    v.iter().map(|x| x.to_string()).collect()
}

fn file(name: &str) -> (String, Node) {
    (name.to_string(), Node::File)
}

fn dir(name: &str, entries: Vec<(String, Node)>) -> (String, Node) {
    (name.to_string(), Node::Dir(entries))
}

fn music() -> Vec<Root> {
    vec![Root {
        path: "/m".to_string(),
        node: Node::Dir(vec![
            file("b.mp3"),
            dir("Zed", vec![file("Old Song.flac"), file("cover.jpg")]),
            file("A.OGG"),
            file("notes.txt"),
        ]),
    }]
}

#[test]
fn audio_files_are_told_by_their_ending() {
    assert!(is_audio_path("/a/b.MP3") && is_audio_path("x.opus") && is_audio_path("clip.mkv"));
    assert!(!is_audio_path("b.jpg") && !is_audio_path("mp3"));
}

#[test]
fn home_is_expanded() {
    assert_eq!(expand_home("~/Music", "/h"), "/h/Music");
    assert_eq!(expand_home("/x", "/h"), "/x");
    assert_eq!(expand_home("~x", "/h"), "~x");
    let mut c = SirenConfig::default();
    c.set("library_roots", "~/Music,/srv").unwrap();
    assert_eq!(library_roots(&c, "/h"), s(&["/h/Music", "/srv"]));
}

#[test]
fn a_directory_is_visited_in_order() {
    let roots = music();
    assert_eq!(visit("/m", &roots[0].node), s(&["/m/A.OGG", "/m/Zed/Old Song.flac", "/m/b.mp3"]));
}

#[test]
fn the_library_is_sorted_without_case_and_without_duplicates() {
    let mut roots = music();
    roots.push(Root { path: "/m/b.mp3".to_string(), node: Node::File });
    roots.push(Root { path: "/other/x.txt".to_string(), node: Node::File });
    roots.push(Root { path: "/gone".to_string(), node: Node::Missing });
    assert_eq!(
        scan_library(&roots),
        s(&["/m/A.OGG", "/m/b.mp3", "/m/Zed/Old Song.flac", "/other/x.txt"])
    );
}

#[test]
fn queries_are_cut_into_tokens() {
    assert_eq!(tokens("Old-Song  (live)"), s(&["old", "song", "live"]));
}

#[test]
fn scores_have_five_tiers() {
    assert_eq!(fuzzy_score(" Abba ", "abba"), (10, 4));
    assert_eq!(fuzzy_score("ab", "ABBA"), (9, 2));
    assert_eq!(fuzzy_score("bb", "abba"), (8, 2));
    assert_eq!(fuzzy_score("song old", "old song"), (7, 7));
    assert_eq!(fuzzy_score("ol so", "xx old xx song"), (6, 4));
    assert_eq!(fuzzy_score("ol zz", "old song"), (0, 0));
    assert_eq!(fuzzy_score("lofi zzz", "my lofi beats"), (0, 0));
    assert_eq!(fuzzy_score("so ol", "old song"), (0, 0));
    assert_eq!(fuzzy_score("zz", "old song"), (0, 0));
    assert_eq!(fuzzy_score("  ", "old song"), (0, 0));
    assert_eq!(fuzzy_score("!!", "old song"), (0, 0));
    assert_eq!(fuzzy_score("é", "É"), (10, 2));
}

#[test]
fn matches_come_best_first() {
    let roots = music();
    assert_eq!(resolve_library(&roots, "old song"), s(&["/m/Zed/Old Song.flac"]));
    assert_eq!(resolve_library(&roots, "b"), s(&["/m/b.mp3"]));
    assert_eq!(resolve_library(&roots, " ").len(), 3);
    assert!(resolve_library(&roots, "qqq").is_empty());
}

#[test]
fn an_exact_name_beats_a_part() {
    let roots = vec![Root {
        path: "/m".to_string(),
        node: Node::Dir(vec![file("aa song.mp3"), file("song.mp3"), file("song two.mp3")]),
    }];
    assert_eq!(
        resolve_library(&roots, "song"),
        s(&["/m/song.mp3", "/m/song two.mp3", "/m/aa song.mp3"])
    );
}

#[test]
fn play_arguments_name_a_file_or_are_a_query() {
    let roots = music();
    assert_eq!(resolve_play_args(&roots, &s(&[]), "/h", false).len(), 3);
    assert_eq!(resolve_play_args(&roots, &s(&["~/x.mp3"]), "/h", true), s(&["/h/x.mp3"]));
    assert!(resolve_play_args(&roots, &s(&["~/x.txt"]), "/h", true).is_empty());
    assert_eq!(resolve_play_args(&roots, &s(&["old", "song"]), "/h", true), s(&["/m/Zed/Old Song.flac"]));
}
