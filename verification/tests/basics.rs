use siren::json::{
    json_arr, json_i64, json_obj, json_obj1, json_real, json_str, json_u64, member_of, parse, parse_bytes, parse_or_null,
    real_or_zero_of, render, render_pretty, Json,
};
use siren::nums::{dec2, dec_i64, dec_u64, hex_of, pad_left, parse_i32, parse_i64, parse_u32, parse_u64, parse_usize};
use siren::paths::{byte_len_of, extension_of_name, file_name_of, file_stem_of, join_paths, parts_of, stem_of_name};
use siren::places;
use siren::text::{
    alnum_pieces_of, contains, ends_with, is_blank, joined, keep_alnum, lines_of, replace_char,
    rsplit_once, split_at_char, split_once, starts_with, strip_prefix, tail_after, take_chars, trimmed, words_of,
};
use siren::urls::{percent_encode, percent_encode_path, percent_encode_path_keep_slash};

fn strs(v: &[&str]) -> Vec<String> {
    v.iter().map(|s| s.to_string()).collect()
}

#[test]
fn texts_are_cut_and_joined() {
    assert_eq!(trimmed(" \t a b \n"), "a b");
    assert!(is_blank(" \u{a0}\n"));
    assert!(!is_blank(" x "));
    assert_eq!(words_of("  one two\tthree "), strs(&["one", "two", "three"]));
    assert_eq!(split_at_char("a,,b", ','), strs(&["a", "", "b"]));
    assert_eq!(split_at_char("", ','), strs(&[""]));
    assert_eq!(alnum_pieces_of("a-b_c 1é!"), strs(&["a", "b", "c", "1é", ""]));
    assert_eq!(keep_alnum("A-b 9!"), "Ab9");
    assert_eq!(joined(&strs(&["a", "b", "c"]), ", "), "a, b, c");
    assert_eq!(joined(&strs(&[]), ", "), "");
    assert_eq!(lines_of("a\r\nb\n\nc"), strs(&["a", "b", "", "c"]));
    assert_eq!(lines_of("a\n"), strs(&["a"]));
    assert_eq!(take_chars("häuser", 3), "häu");
    assert_eq!(replace_char("a.b.c", '.', '_'), "a_b_c");
}

#[test]
fn texts_are_searched() {
    assert!(contains("siren", "ire") && contains("x", "") && !contains("siren", "iron"));
    assert!(starts_with("siren", "si") && !starts_with("s", "si"));
    assert!(ends_with("siren", "en") && !ends_with("n", "en"));
    assert_eq!(strip_prefix("--x=1", "--x="), Some("1".to_string()));
    assert_eq!(strip_prefix("-x=1", "--x="), None);
    assert_eq!(split_once("k=v=w", '='), Some(("k".to_string(), "v=w".to_string())));
    assert_eq!(rsplit_once("k=v=w", '='), Some(("k=v".to_string(), "w".to_string())));
    assert_eq!(split_once("k", '='), None);
    assert_eq!(tail_after("a/b/c", '/'), "c");
    assert_eq!(tail_after("abc", '/'), "abc");
}

#[test]
fn numbers_are_written_and_read() {
    assert_eq!(dec_i64(i64::MIN), i64::MIN.to_string());
    assert_eq!(dec_u64(u64::MAX), u64::MAX.to_string());
    assert_eq!(dec_i64(0), "0");
    assert_eq!(parse_i64("-9223372036854775808"), Some(i64::MIN));
    assert_eq!(parse_i64("9223372036854775808"), None);
    assert_eq!(parse_i32("+7"), Some(7));
    assert_eq!(parse_i32("2147483648"), None);
    assert_eq!(parse_u64("18446744073709551615"), Some(u64::MAX));
    assert_eq!(parse_u64("-0"), "-0".parse::<u64>().ok());
    assert_eq!(parse_u32("4294967296"), None);
    assert_eq!(parse_usize(""), None);
    assert_eq!(parse_usize("1 "), None);
    assert_eq!(pad_left("7", 3), "  7");
    assert_eq!(pad_left("1234", 3), "1234");
    assert_eq!(dec2(7), "07");
    assert_eq!(hex_of(0xbeef, 16), "000000000000beef");
}

#[test]
fn written_numbers_read_back() {
    for n in [0i64, 7, -7, 10, 99, -100, i64::MAX, i64::MIN] {
        assert_eq!(parse_i64(&dec_i64(n)), Some(n));
    }
}

#[test]
fn paths_are_taken_apart() {
    assert_eq!(byte_len_of("é"), 2);
    assert_eq!(parts_of("/a//b/"), strs(&["a", "b"]));
    assert_eq!(file_name_of("/music/a.b.mp3"), Some("a.b.mp3".to_string()));
    assert_eq!(file_name_of("/music/"), Some("music".to_string()));
    assert_eq!(file_name_of("/"), None);
    assert_eq!(file_name_of("a/.."), None);
    assert_eq!(file_stem_of("/music/a.b.mp3"), Some("a.b".to_string()));
    assert_eq!(stem_of_name(".hidden"), ".hidden");
    assert_eq!(extension_of_name("a.b.mp3"), Some("mp3".to_string()));
    assert_eq!(extension_of_name(".hidden"), None);
    assert_eq!(join_paths("/home/u", "Music"), "/home/u/Music");
    assert_eq!(join_paths("/home/u/", "Music"), "/home/u/Music");
    assert_eq!(join_paths("/home/u", "/abs"), "/abs");
}

#[test]
fn places_follow_the_environment() {
    assert_eq!(places::home_dir(None), "/root");
    assert_eq!(places::home_dir(Some("/h")), "/h");
    assert_eq!(places::config_path("/h"), "/h/.config/siren/config.json");
    assert_eq!(places::queue_file(None, "/h"), "/h/.config/siren/queue.json");
    assert_eq!(places::queue_file(Some("/c"), "/h"), "/c/queue.json");
    assert_eq!(places::playlist_dir(Some("/c"), "/h"), "/c/playlists");
    assert_eq!(places::radio_file(None, "/h"), "/h/.config/siren/radio.json");
    assert_eq!(places::roster_cache_path("/h"), "/h/.cache/siren/heos-roster.json");
    assert_eq!(places::cast_note_path("/h"), "/h/.cache/siren/heos-now.json");
    assert_eq!(places::now_cache_path("/h"), "/h/.cache/siren/now.json");
    assert_eq!(places::disk_path("/h"), "/h/.cache/siren/meta.json");
    assert_eq!(places::countries_path("/h"), "/h/.cache/siren/radio-countries.json");
    assert_eq!(places::spectrum_dir("/h"), "/h/.cache/siren/spectrum");
    assert_eq!(places::known_path(None), "");
    assert_eq!(places::known_path(Some("/h")), "/h/.config/ether/heos.json");
}

#[test]
fn addresses_are_escaped() {
    assert_eq!(percent_encode("a b&c-é"), "a+b%26c-%C3%A9");
    assert_eq!(percent_encode_path("a b/c"), "a%20b%2Fc");
    assert_eq!(percent_encode_path_keep_slash("a b/c~"), "a%20b/c~");
}

#[test]
fn json_is_read_and_written() {
    let text = "{\"a\":[1,-2,1.5,true,null,\"x\\n\"],\"b\":{}}";
    let v = parse_or_null(text);
    assert_eq!(render(&v), text);
    let a = v.arr_at("a").unwrap();
    assert_eq!(a[0].as_i64(), Some(1));
    assert_eq!(a[1].as_i64(), Some(-2));
    assert_eq!(a[1].as_u64(), None);
    assert_eq!(a[2].as_i64(), None);
    assert_eq!(a[3].as_bool(), Some(true));
    assert_eq!(a[5].as_str(), Some("x\n"));
    assert!(v.get("c").is_none());
    assert_eq!(render(&parse_or_null("{")), "null");
    assert!(parse("[1").is_err());
    assert!(parse_bytes(&b"[1]".to_vec()).is_ok());
    assert!(parse_bytes(&vec![255]).is_err());
}

#[test]
fn json_error_has_a_message() {
    match parse("[1,") {
        Err(e) => assert_eq!(e, "EOF while parsing a value at line 1 column 3"),
        Ok(_) => panic!("read"),
    }
}

#[test]
fn json_values_are_built() {
    let v = json_obj(vec![
        member_of("a", json_str("x")),
        member_of("b", json_arr(vec![json_i64(-1), json_u64(u64::MAX), json_real("0.5")])),
        member_of("c", json_obj1("d", Json::Null)),
    ]);
    assert_eq!(render(&v), "{\"a\":\"x\",\"b\":[-1,18446744073709551615,0.5],\"c\":{\"d\":null}}");
    assert_eq!(render_pretty(&json_obj1("k", json_i64(1))), "{\n  \"k\": 1\n}");
}

#[test]
fn real_numbers_keep_their_text() {
    let v = parse_or_null("[2.25, 3]");
    let a = match &v {
        Json::Arr(a) => a,
        _ => panic!("no array"),
    };
    assert_eq!(real_or_zero_of(Some(&a[0])), "2.25");
    assert_eq!(real_or_zero_of(Some(&a[1])), "3.0");
    assert_eq!(real_or_zero_of(None), "0.0");
}
