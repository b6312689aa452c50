//! Where files stand.

use vstd::prelude::*;
use crate::paths::{join_path, join_paths};
use crate::text::{cat2, opt_str};

verus! {

/// The home directory: as the environment says, or that of root.
pub fn home_dir(env: Option<&str>) -> (r: String)
    ensures
        r@ == match opt_str(env) {
            Some(h) => h,
            None => "/root"@,
        },
{
    match env {
        Some(h) => h.to_owned(),
        None => "/root".to_owned(),
    }
}

/// The file of the configuration.
pub fn config_path(home: &str) -> (r: String)
    ensures
        r@ == join_path(home@, ".config/siren/config.json"@),
{
    join_paths(home, ".config/siren/config.json")
}

/// The directory of what the user keeps: as the environment says, or below the home directory.
pub open spec fn user_dir_at(env: Option<Seq<char>>, home: Seq<char>) -> Seq<char> {
    match env {
        Some(d) => d,
        None => home + "/.config/siren"@,
    }
}

/// The directory of what the user keeps.
pub fn user_dir(env: Option<&str>, home: &str) -> (r: String)
    ensures
        r@ == user_dir_at(opt_str(env), home@),
{
    match env {
        Some(d) => d.to_owned(),
        None => cat2(home, "/.config/siren"),
    }
}

/// The file of the queue.
pub fn queue_file(env: Option<&str>, home: &str) -> (r: String)
    ensures
        r@ == join_path(user_dir_at(opt_str(env), home@), "queue.json"@),
{
    join_paths(user_dir(env, home).as_str(), "queue.json")
}

/// The directory of the playlists.
pub fn playlist_dir(env: Option<&str>, home: &str) -> (r: String)
    ensures
        r@ == join_path(user_dir_at(opt_str(env), home@), "playlists"@),
{
    join_paths(user_dir(env, home).as_str(), "playlists")
}

/// The file of what the radio remembers.
pub fn radio_file(env: Option<&str>, home: &str) -> (r: String)
    ensures
        r@ == join_path(user_dir_at(opt_str(env), home@), "radio.json"@),
{
    join_paths(user_dir(env, home).as_str(), "radio.json")
}

/// The directory of what can be had again.
pub fn cache_dir(home: &str) -> (r: String)
    ensures
        r@ == home@ + "/.cache/siren"@,
{
    cat2(home, "/.cache/siren")
}

/// The file of the speakers that were seen.
pub fn roster_cache_path(home: &str) -> (r: String)
    ensures
        r@ == home@ + "/.cache/siren/heos-roster.json"@,
{
    cat2(home, "/.cache/siren/heos-roster.json")
}

/// The file of what was cast last.
pub fn cast_note_path(home: &str) -> (r: String)
    ensures
        r@ == home@ + "/.cache/siren/heos-now.json"@,
{
    cat2(home, "/.cache/siren/heos-now.json")
}

/// The file of what is playing.
pub fn now_cache_path(home: &str) -> (r: String)
    ensures
        r@ == home@ + "/.cache/siren/now.json"@,
{
    cat2(home, "/.cache/siren/now.json")
}

/// The file of the tags.
pub fn disk_path(home: &str) -> (r: String)
    ensures
        r@ == home@ + "/.cache/siren/meta.json"@,
{
    cat2(home, "/.cache/siren/meta.json")
}

/// The file of the countries.
pub fn countries_path(home: &str) -> (r: String)
    ensures
        r@ == join_path(home@ + "/.cache/siren"@, "radio-countries.json"@),
{
    join_paths(cache_dir(home).as_str(), "radio-countries.json")
}

/// The directory of the spectra.
pub fn spectrum_dir(home: &str) -> (r: String)
    ensures
        r@ == join_path(home@, ".cache/siren/spectrum"@),
{
    join_paths(home, ".cache/siren/spectrum")
}

/// The file of the speakers' known addresses; without a home directory there is none.
pub fn known_path(env: Option<&str>) -> (r: String)
    ensures
        r@ == match opt_str(env) {
            Some(h) => h + "/.config/ether/heos.json"@,
            None => ""@,
        },
{
    match env {
        Some(h) => cat2(h, "/.config/ether/heos.json"),
        None => "".to_owned(),
    }
}

/// What the user stores lies where that is set, else in the usual place below the home directory.
pub proof fn law_user_dir(dir: Seq<char>, home: Seq<char>)
    ensures
        user_dir_at(Some(dir), home) == dir,
        user_dir_at(None, home) == home + "/.config/siren"@,
{
}

} // verus!
