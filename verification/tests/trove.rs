use siren::json::parse_or_null;
use siren::trove::{
    about_text, append_unique, build_query, cc_to_doc, cc_total, doc_lines, doc_meta_of, first_str, interactive_list,
    is_ccmixter_ident, is_ccmixter_kind, is_kind_token, kind_map, run_get, search, search_page, search_url, to_doc, CcSearch,
    next_turn, Choice, Doc, SearchRequest, Source, Trove, Turn, PAGE_SIZE, PREFETCH_WITHIN,
};

fn s(v: &[&str]) -> Vec<String> {
    v.iter().map(|x| x.to_string()).collect()
}

fn doc(ident: &str) -> Doc {
    Doc {
        identifier: ident.to_string(),
        title: "T".to_string(),
        creator: "C".to_string(),
        year: "1999".to_string(),
        mediatype: "audio".to_string(),
        downloads: "12".to_string(),
        source: Source::Archive,
    }
}

#[test]
fn kinds_are_known_words() {
    assert_eq!(kind_map("LIVE"), Some(("etree".to_string(), "collection:(etree)".to_string())));
    assert_eq!(kind_map("video"), Some(("movies".to_string(), "".to_string())));
    assert_eq!(kind_map("lofi"), None);
    assert!(is_ccmixter_kind("Remix") && !is_ccmixter_kind("music"));
    assert!(is_kind_token("audio") && is_kind_token("films") && is_kind_token("CC") && !is_kind_token("jazz"));
    assert!(is_ccmixter_ident("ccmixter:5") && !is_ccmixter_ident("x:5"));
    assert_eq!((PAGE_SIZE, PREFETCH_WITHIN), (20, 6));
}

#[test]
fn queries_are_built() {
    assert_eq!(build_query(None, &s(&[])), "mediatype:(audio)");
    assert_eq!(
        build_query(Some("audio"), &s(&["lo\"fi"])),
        "mediatype:(audio) AND (title:(lo fi) OR subject:(lo fi) OR description:(lo fi) OR creator:(lo fi))"
    );
    assert_eq!(build_query(Some("live"), &s(&[])), "mediatype:(etree) AND collection:(etree)");
    assert_eq!(build_query(Some("video"), &s(&[])), "mediatype:(movies)");
    assert_eq!(
        build_query(Some("jazz"), &s(&["duo"])),
        "(title:(jazz duo) OR subject:(jazz duo) OR description:(jazz duo) OR creator:(jazz duo))"
    );
}

#[test]
fn fields_are_read_as_text() {
    let v = parse_or_null("{\"a\":\"x\",\"b\":[\"p\",2,\"q\",\"r\"],\"c\":7,\"d\":1.5,\"e\":true}");
    assert_eq!(first_str(&v, "a"), "x");
    assert_eq!(first_str(&v, "b"), "p, q");
    assert_eq!(first_str(&v, "c"), "7");
    assert_eq!(first_str(&v, "d"), "1.5");
    assert_eq!(first_str(&v, "e"), "");
    assert_eq!(first_str(&v, "f"), "");
}

#[test]
fn results_are_read() {
    let d = to_doc(&parse_or_null("{\"identifier\":\"i\",\"year\":2001}"));
    assert_eq!((d.identifier.as_str(), d.year.as_str(), d.title.as_str()), ("i", "2001", ""));
    assert_eq!(d.source, Source::Archive);
    let c = cc_to_doc(&parse_or_null("{\"upload_id\":\"42\",\"upload_name\":\"N\",\"user_name\":\"u\"}")).unwrap();
    assert_eq!((c.identifier.as_str(), c.creator.as_str(), c.mediatype.as_str()), ("ccmixter:42", "u", "ccmixter"));
    assert_eq!(c.source, Source::CcMixter);
    assert!(cc_to_doc(&parse_or_null("{\"upload_id\":\"x\"}")).is_none());
    assert!(cc_to_doc(&parse_or_null("{}")).is_none());
}

#[test]
fn appending_twice_adds_nothing() {
    let mut v = vec![doc("a")];
    append_unique(&mut v, &vec![doc("b"), doc("a"), doc("b"), doc("c")]);
    let idents = |v: &Vec<Doc>| v.iter().map(|d| d.identifier.clone()).collect::<Vec<_>>();
    assert_eq!(idents(&v), s(&["a", "b", "c"]));
    append_unique(&mut v, &vec![doc("b"), doc("c")]);
    assert_eq!(v.len(), 3);
}

#[test]
fn the_archive_is_searched() {
    assert_eq!(
        search_url("a b", 99, 2),
        "https://archive.org/advancedsearch.php?q=a+b&rows=50&page=2&output=json&sort%5B%5D=downloads+desc&fl%5B%5D=identifier&fl%5B%5D=title&fl%5B%5D=creator&fl%5B%5D=year&fl%5B%5D=mediatype&fl%5B%5D=downloads"
    );
    let (docs, n) = match search("{\"response\":{\"docs\":[{\"identifier\":\"x\"}],\"numFound\":9}}") {
        Ok(r) => r,
        Err(e) => panic!("{e}"),
    };
    assert_eq!((docs.len(), n), (1, 9));
    match search("{}") {
        Ok((d, n)) => assert_eq!((d.len(), n), (0, 0)),
        Err(e) => panic!("{e}"),
    }
    match search("<html>") {
        Err(e) => assert!(e.starts_with("json: ")),
        Ok(_) => panic!("read"),
    }
}

#[test]
fn ccmixter_is_searched_by_tens() {
    let mut c = CcSearch::begin(" lo fi ", 25, 50);
    assert_eq!(c.count_url(), "https://ccmixter.org/api/query?datasource=uploads&search_type=any&search=lo+fi&f=count");
    let ten: Vec<String> = (0..10).map(|i| format!("{{\"upload_id\":{i}}}")).collect();
    let page = format!("[{}]", ten.join(","));
    assert!(c.wants());
    assert!(c.page_url().ends_with("&f=json&limit=10&offset=50"));
    assert_eq!(c.search_ccmixter(&page), Ok(true));
    assert!(c.page_url().ends_with("&limit=10&offset=60"));
    assert_eq!(c.search_ccmixter(&page), Ok(true));
    assert!(c.page_url().ends_with("&limit=5&offset=70"));
    assert_eq!(c.search_ccmixter("[{\"upload_id\":77}]"), Ok(false));
    assert_eq!(c.docs.len(), 21);
    assert_eq!(CcSearch::begin("", 10, 0).count_url(), "https://ccmixter.org/api/query?datasource=uploads&search_type=any&f=count");
}

#[test]
fn ccmixter_counts_are_read() {
    assert_eq!(cc_total("7"), 7);
    assert_eq!(cc_total("[8]"), 8);
    assert_eq!(cc_total("{}"), 0);
    assert_eq!(cc_total("oops"), 0);
}

#[test]
fn a_page_is_requested_where_its_kind_lives() {
    match search_page(Some("cc"), &s(&["x"]), 20, 3) {
        SearchRequest::CcMixter(c) => assert_eq!((c.off, c.end), (40, 60)),
        _ => panic!("archive"),
    }
    match search_page(None, &s(&["x"]), 0, 0) {
        SearchRequest::Archive(u) => assert!(u.contains("&rows=1&page=1&")),
        _ => panic!("ccmixter"),
    }
}

#[test]
fn a_result_has_two_lines() {
    assert_eq!(doc_meta_of(&doc("i")), "C · 1999 · audio · ↓12");
    assert_eq!(doc_lines(3, &doc("i")), (" 3.  T".to_string(), "    C · 1999 · audio · ↓12  i".to_string()));
    let mut d = doc("ident");
    d.title = "".to_string();
    d.creator = "x".repeat(50);
    d.year = "".to_string();
    d.downloads = "".to_string();
    let (a, b) = doc_lines(12, &d);
    assert_eq!(a, "12.  ident");
    assert_eq!(b, format!("    {} · audio  ident", "x".repeat(40)));
}

#[test]
fn a_conversation_goes_on_page_by_page() {
    let mut t = Trove::begin(2, &s(&["music", "lofi"]), None);
    assert_eq!(t.kind.as_deref(), Some("music"));
    assert_eq!(t.announcement(), "  searching archive.org …");
    assert!(matches!(t.request(), SearchRequest::Archive(u) if u.contains("rows=2&page=1")));
    assert_eq!(t.run_trove(&vec![doc("a"), doc("b")], 3), 2);
    assert!(t.has_more());
    t.next_page();
    assert_eq!(t.announcement(), "  more from archive.org (page 2) …");
    assert_eq!(t.run_trove(&vec![doc("b"), doc("c")], 3), 1);
    assert!(!t.has_more());
    assert_eq!(t.docs.len(), 3);
    t.search_again("cc chill");
    assert_eq!((t.page, t.docs.len(), t.num_found), (1, 0, 0));
    assert_eq!(t.announcement(), "  searching ccmixter.org …");
    assert_eq!(t.label(), "ccmixter chill");
    t.search_again("  ");
    assert_eq!(t.label(), "ccmixter chill");
}

#[test]
fn results_are_shown_with_what_can_be_done() {
    let mut t = Trove::begin(10, &s(&["x"]), None);
    assert_eq!(t.show().last().unwrap(), "  No results. Try different words.");
    t.run_trove(&vec![doc("a")], 1);
    let lines = t.show();
    assert_eq!(lines[2], "  matches: 1  ·  showing 1");
    assert_eq!(lines[4], "   1.  T");
    assert_eq!(lines[7], "  [1-N] download   [a] all listed   [s] search again   [q] quit");
    t.num_found = 5;
    assert!(t.show()[7].contains("[m] more"));
}

#[test]
fn answers_choose() {
    assert_eq!(interactive_list(" Q\n", 3, true), Choice::Quit);
    assert_eq!(interactive_list("r", 3, true), Choice::Again);
    assert_eq!(interactive_list("next", 3, true), Choice::More);
    assert_eq!(interactive_list("next", 3, false), Choice::Bad);
    assert_eq!(interactive_list("all", 3, false), Choice::All);
    assert_eq!(interactive_list("3", 3, false), Choice::One(2));
    assert_eq!(interactive_list("4", 3, false), Choice::Bad);
    assert_eq!(interactive_list("", 3, false), Choice::Bad);
}

#[test]
fn a_choice_leads_on() {
    assert!(matches!(next_turn(None, 0), Turn::Words));
    assert!(matches!(next_turn(None, 2), Turn::Answer(None)));
    assert!(matches!(next_turn(Some(Choice::Quit), 2), Turn::Leave));
    assert!(matches!(next_turn(Some(Choice::Again), 2), Turn::Words));
    assert!(matches!(next_turn(Some(Choice::More), 2), Turn::NextPage));
    assert!(matches!(next_turn(Some(Choice::Bad), 2), Turn::Answer(Some(l)) if l == "Pick a number, a, m, s, or q."));
    assert!(matches!(next_turn(Some(Choice::All), 3), Turn::Fetch(p, l, true) if p == vec![0, 1, 2] && l == "Done. [s] new search, [q] quit."));
    assert!(matches!(next_turn(Some(Choice::One(1)), 3), Turn::Fetch(p, l, false) if p == vec![1] && l.starts_with("Another number")));
}

#[test]
fn an_item_is_got_by_its_identifier() {
    assert_eq!(run_get(" x "), Ok("x".to_string()));
    assert_eq!(run_get(" "), Err("usage: siren trove get <identifier> [--format EXT|all]".to_string()));
    assert_eq!(about_text()[0], "siren trove — free & legal media");
}
