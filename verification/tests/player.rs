use siren::config::SirenConfig;
use siren::json::{parse_or_null, render, Json};
use siren::player::{
    apply_runtime_prefs, command1, command2, get, get_bool, get_payload, get_string, mpv_args, now_path, payload,
    reply_complete, set_bool, set_int, set_text, sock_path, spawn, spawn_next, strip_file, SpawnStep,
};

fn texts(v: &[Json]) -> Vec<String> {
    v.iter().map(render).collect()
}

#[test]
fn commands_are_one_line_each() {
    assert_eq!(payload(&command2("cycle", "pause")), "{\"command\":[\"cycle\",\"pause\"]}\n");
    assert_eq!(payload(&command1("stop")), "{\"command\":[\"stop\"]}\n");
    assert_eq!(payload(&set_int("volume", 40)), "{\"command\":[\"set_property\",\"volume\",40]}\n");
    assert_eq!(render(&set_bool("pause", false)), "[\"set_property\",\"pause\",false]");
    assert_eq!(render(&set_text("video", "no")), "[\"set_property\",\"video\",\"no\"]");
    assert_eq!(get_payload("path"), "{\"command\":[\"get_property\",\"path\"]}\n");
}

#[test]
fn a_reply_ends_with_a_line() {
    assert!(!reply_complete(&b"{\"data\"".to_vec()));
    assert!(reply_complete(&b"{}\n".to_vec()));
}

#[test]
fn the_first_success_counts() {
    let data = b"{\"event\":\"idle\"}\n{\"data\":3,\"error\":\"property unavailable\"}\n{\"data\":\"x\",\"error\":\"success\"}\n";
    let v = get(&data.to_vec()).unwrap();
    assert_eq!(v.as_str(), Some("x"));
    assert!(get(&b"garbage\n".to_vec()).is_none());
    assert!(get(&b"{\"error\":\"success\"}\n".to_vec()).is_none());
}

#[test]
fn properties_have_defaults() {
    assert!(get_bool(None, true));
    assert!(!get_bool(Some(&Json::Bool(false)), true));
    assert_eq!(get_string(None), "");
    assert_eq!(get_string(Some(&parse_or_null("5"))), "");
    assert_eq!(now_path(Some(&parse_or_null("\"file:///a b.mp3\""))), "/a b.mp3");
    assert_eq!(now_path(Some(&parse_or_null("\"http://x\""))), "http://x");
    assert_eq!(strip_file("file://file://a"), "file://a");
}

#[test]
fn mpv_is_started_idle() {
    assert_eq!(sock_path(None), "/tmp/siren-mpv.sock");
    assert_eq!(sock_path(Some("/s".to_string())), "/s");
    let args = mpv_args("/s");
    assert_eq!(args.len(), 6);
    assert_eq!(args[0], "--idle=yes");
    assert_eq!(args[5], "--input-ipc-server=/s");
}

#[test]
fn starting_takes_one_try_and_ends() {
    assert_eq!(spawn(true, true), SpawnStep::Ready);
    assert_eq!(spawn(false, true), SpawnStep::Failed);
    assert_eq!(spawn(false, false), SpawnStep::Launch);
    assert_eq!(spawn_next(false, 0, false), SpawnStep::Failed);
    assert_eq!(spawn_next(true, 0, true), SpawnStep::Settle(150));
    let mut waits = 0;
    while spawn_next(true, waits, false) == SpawnStep::Wait(50) {
        waits += 1;
    }
    assert_eq!(waits, 20);
    assert_eq!(spawn_next(true, waits, false), SpawnStep::Failed);
}

#[test]
fn preferences_follow_the_configuration() {
    let mut c = SirenConfig::default();
    assert_eq!(
        texts(&apply_runtime_prefs(&c, true)),
        vec![
            "[\"set_property\",\"gapless-audio\",\"yes\"]",
            "[\"set_property\",\"replaygain-mode\",\"off\"]",
            "[\"set_property\",\"volume\",75]"
        ]
    );
    c.set("gapless", "off").unwrap();
    c.set("normalize", "on").unwrap();
    assert_eq!(
        texts(&apply_runtime_prefs(&c, false)),
        vec!["[\"set_property\",\"gapless-audio\",\"no\"]", "[\"set_property\",\"replaygain-mode\",\"track\"]"]
    );
}
