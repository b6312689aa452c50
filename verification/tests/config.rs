use siren::config::SirenConfig;
use siren::json::{parse, render, Json};

fn fresh() -> SirenConfig {
    SirenConfig::default()
}

#[test]
fn default_configuration() {
    let c = fresh();
    assert_eq!(c.default_volume, 75);
    assert_eq!(c.library_roots, vec!["~/Music".to_string()]);
    assert!(c.fuzzy_search && c.waves && c.gapless && c.cache_meta && c.mouse);
    assert!(!c.normalize);
    assert_eq!(c.wave_bands, 16);
    assert_eq!(c.audio_output, "local");
    assert_eq!(c.audio_speaker, "Vanguarda Office");
    assert!(!c.use_heos());
}

#[test]
fn empty_or_corrupt_file_gives_the_default() {
    for raw in ["", "  \n", "{", "not json"] {
        let c = SirenConfig::load(raw);
        assert_eq!(format!("{:?}", c), format!("{:?}", fresh()));
    }
}

#[test]
fn load_takes_what_is_valid() {
    let c = SirenConfig::load(
        r#"{"default_volume": 150, "library_roots": ["/a", 3, "/b"], "waves": false, "normalize": true,
            "wave_bands": 32, "audio_output": "HEOS", "audio_speaker": " Cave ", "other": 1}"#,
    );
    assert_eq!(c.default_volume, 150);
    assert_eq!(c.library_roots, vec!["/a".to_string(), "/b".to_string()]);
    assert!(!c.waves && c.normalize && c.gapless);
    assert_eq!(c.wave_bands, 32);
    assert_eq!(c.audio_output, "heos");
    assert_eq!(c.audio_speaker, " Cave ");
    assert!(c.use_heos());
}

#[test]
fn load_keeps_defaults_for_what_is_not_valid() {
    let c = SirenConfig::load(
        r#"{"default_volume": 151, "library_roots": [1], "waves": "no", "wave_bands": 12,
            "audio_output": "radio", "audio_speaker": "  "}"#,
    );
    assert_eq!(format!("{:?}", c), format!("{:?}", fresh()));
}

#[test]
fn set_then_get_shows_the_value() {
    let cases = [
        ("default_volume", " 40 ", "40"),
        ("library_roots", "~/a , /b,, ", "~/a, /b"),
        ("fuzzy_search", "off", "off"),
        ("waves", "1", "on"),
        ("gapless", "no", "off"),
        ("normalize", "YES", "on"),
        ("cache_meta", "true", "on"),
        ("wave_bands", "64", "64"),
        ("mouse", "nope", "off"),
        ("audio_output", "Heos", "heos"),
        ("Audio_Speaker", " Cave ", "Cave"),
    ];
    for (key, val, shown) in cases {
        let mut c = fresh();
        assert_eq!(c.set(key, val), Ok(shown.to_string()), "{key}");
        assert_eq!(c.get(key), Some(shown.to_string()), "{key}");
    }
}

#[test]
fn set_refuses_and_changes_nothing() {
    let cases = [
        ("default_volume", "loud", "expects an integer (0-150)"),
        ("default_volume", "151", "expects 0-150"),
        ("default_volume", "-1", "expects 0-150"),
        ("library_roots", " , ,", "expects comma-separated paths"),
        ("wave_bands", "12", "expects 8, 16, 32 or 64"),
        ("audio_output", "radio", "expects local or heos"),
        ("audio_speaker", "   ", "expects a speaker name"),
        ("colour", "red", "unknown key: colour"),
    ];
    for (key, val, err) in cases {
        let mut c = fresh();
        assert_eq!(c.set(key, val), Err(err.to_string()), "{key}");
        assert_eq!(format!("{:?}", c), format!("{:?}", fresh()));
    }
}

#[test]
fn setting_one_key_leaves_the_others() {
    let mut c = fresh();
    c.set("default_volume", "10").unwrap();
    for key in SirenConfig::keys() {
        if key != "default_volume" {
            assert_eq!(c.get(&key), fresh().get(&key));
        }
    }
}

#[test]
fn every_listed_key_has_a_value() {
    let keys = SirenConfig::keys();
    assert_eq!(keys.len(), 11);
    assert_eq!(keys[0], "default_volume");
    assert_eq!(keys[10], "audio_speaker");
    for key in keys {
        assert!(fresh().get(&key).is_some());
    }
    assert_eq!(fresh().get("colour"), None);
    assert_eq!(fresh().get("LIBRARY_ROOTS"), Some("~/Music".to_string()));
}

#[test]
fn saved_configuration_loads_back() {
    let mut c = fresh();
    c.set("default_volume", "12").unwrap();
    c.set("library_roots", "/x,/y").unwrap();
    c.set("audio_output", "heos").unwrap();
    c.set("mouse", "off").unwrap();
    let back = SirenConfig::load(&render(&c.save()));
    assert_eq!(format!("{:?}", back), format!("{:?}", c));
}

#[test]
fn stored_keys_stand_in_their_order() {
    match fresh().save() {
        Json::Obj(o) => {
            let names: Vec<String> = o.iter().map(|m| m.0.clone()).collect();
            assert_eq!(names, SirenConfig::keys());
        }
        _ => panic!("no object"),
    }
}

#[test]
fn from_json_reads_a_value() {
    let v = match parse("{\"default_volume\": 3}") {
        Ok(v) => v,
        Err(e) => panic!("{e}"),
    };
    assert_eq!(SirenConfig::from_json(&v).default_volume, 3);
}
