//! Talking to mpv: one JSON command per connection, a short reply.
//!
//! Here stand the commands, what the replies mean, and when mpv is started. The socket
//! and the process belong to the caller.

use vstd::prelude::*;
use crate::config::{ConfigV, SirenConfig};
use crate::json::{
    json_arr, json_compact, json_i64, json_obj1, json_str, jsons, obj1, opt_json, parse_or_null, parsed_or_null, render,
    value_stored, int_v, Json, JsonV,
};
use crate::text::{
    after_prefix, cat2, is_text, lines, lines_of, lossy, lossy_text, strip_prefix, views,
};

verus! {

// ---- commands ----

/// The command of one word.
pub open spec fn mpv1(a: Seq<char>) -> JsonV {
    JsonV::Arr(seq![JsonV::Str(a)])
}

/// The command of two words.
pub open spec fn mpv2(a: Seq<char>, b: Seq<char>) -> JsonV {
    JsonV::Arr(seq![JsonV::Str(a), JsonV::Str(b)])
}

/// The command of two words and a value.
pub open spec fn mpv3(a: Seq<char>, b: Seq<char>, v: JsonV) -> JsonV {
    JsonV::Arr(seq![JsonV::Str(a), JsonV::Str(b), v])
}

/// The command of one word.
pub fn command1(a: &str) -> (j: Json)
    ensures
        j@ == mpv1(a@),
{
    let mut v: Vec<Json> = Vec::new();
    v.push(json_str(a));
    assert(jsons(v@) == seq![JsonV::Str(a@)]);
    json_arr(v)
}

/// The command of two words.
pub fn command2(a: &str, b: &str) -> (j: Json)
    ensures
        j@ == mpv2(a@, b@),
{
    let mut v: Vec<Json> = Vec::new();
    v.push(json_str(a));
    v.push(json_str(b));
    assert(jsons(v@) == seq![JsonV::Str(a@), JsonV::Str(b@)]);
    json_arr(v)
}

/// The command of two words and a value.
pub fn command3(a: &str, b: &str, value: Json) -> (j: Json)
    ensures
        j@ == mpv3(a@, b@, value@),
{
    let mut v: Vec<Json> = Vec::new();
    v.push(json_str(a));
    v.push(json_str(b));
    v.push(value);
    assert(jsons(v@) == seq![JsonV::Str(a@), JsonV::Str(b@), value@]);
    json_arr(v)
}

/// Setting a property to a text.
pub fn set_text(prop: &str, value: &str) -> (j: Json)
    ensures
        j@ == mpv3("set_property"@, prop@, JsonV::Str(value@)),
{
    command3("set_property", prop, json_str(value))
}

/// Setting a property to a truth value.
pub fn set_bool(prop: &str, value: bool) -> (j: Json)
    ensures
        j@ == mpv3("set_property"@, prop@, JsonV::Bool(value)),
{
    command3("set_property", prop, Json::Bool(value))
}

/// Setting a property to a number.
pub fn set_int(prop: &str, value: i64) -> (j: Json)
    ensures
        j@ == mpv3("set_property"@, prop@, int_v(value as int)),
{
    command3("set_property", prop, json_i64(value))
}

/// The line that carries a command.
pub open spec fn payload_of(argv: JsonV) -> Seq<char> {
    json_compact(value_stored(obj1("command"@, argv))) + "\n"@
}

/// The line that carries a command.
pub fn payload(argv: &Json) -> (s: String)
    ensures
        s@ == payload_of(argv@),
{
    cat2(render(&json_obj1("command", argv.copy())).as_str(), "\n")
}

/// The line that asks for a property.
pub fn get_payload(prop: &str) -> (s: String)
    ensures
        s@ == payload_of(mpv2("get_property"@, prop@)),
{
    payload(&command2("get_property", prop))
}

// ---- replies ----

/// Whether a reply has been read far enough: it holds a line feed.
pub fn reply_complete(data: &Vec<u8>) -> (b: bool)
    ensures
        b == data@.contains(10u8),
{
    for i in 0..data.len()
        invariant
            forall|j: int| 0 <= j < i ==> data@[j] != 10u8,
    {
        if data[i] == 10u8 {
            assert(data@[i as int] == 10u8);
            return true;
        }
    }
    false
}

/// The datum of the first of these lines that reports success.
pub open spec fn reply_in(ls: Seq<Seq<char>>) -> Option<JsonV>
    decreases ls.len(),
{
    if ls.len() == 0 {
        None
    } else {
        let v = parsed_or_null(ls[0]);
        if v.str_at("error"@) == Some("success"@) {
            v.get("data"@)
        } else {
            reply_in(ls.skip(1))
        }
    }
}

/// The property that a reply gives.
pub open spec fn reply_of(data: Seq<u8>) -> Option<JsonV> {
    reply_in(lines(lossy(data)))
}

/// The property that a reply gives, if it reports success.
pub fn get(data: &Vec<u8>) -> (r: Option<Json>)
    ensures
        match r {
            Some(j) => reply_of(data@) == Some(j@),
            None => reply_of(data@) is None,
        },
{
    let ls = lines_of(lossy_text(data).as_str());
    assert(views(ls@).skip(0) == views(ls@));
    for i in 0..ls.len()
        invariant
            views(ls@) == lines(lossy(data@)),
            reply_of(data@) == reply_in(views(ls@).skip(i as int)),
    {
        proof {
            assert(views(ls@).skip(i as int)[0] == ls@[i as int]@);
            assert(views(ls@).skip(i as int).skip(1) == views(ls@).skip(i + 1));
        }
        let v = parse_or_null(ls[i].as_str());
        if is_text(v.str_at("error"), "success") {
            return match v.get("data") {
                Some(d) => Some(d.copy()),
                None => None,
            };
        }
    }
    None
}

/// A truth value, or `default`.
pub open spec fn bool_or(v: Option<JsonV>, default: bool) -> bool {
    match v {
        Some(j) => match j.as_bool() {
            Some(b) => b,
            None => default,
        },
        None => default,
    }
}

/// A property as a truth value, or `default`.
pub fn get_bool(v: Option<&Json>, default: bool) -> (b: bool)
    ensures
        b == bool_or(opt_json(v), default),
{
    match v {
        Some(j) => match j.as_bool() {
            Some(b) => b,
            None => default,
        },
        None => default,
    }
}

/// A text, or the empty one.
pub open spec fn string_or_empty(v: Option<JsonV>) -> Seq<char> {
    match v {
        Some(j) => match j.as_str() {
            Some(s) => s,
            None => ""@,
        },
        None => ""@,
    }
}

/// A property as text; empty where it is none.
pub fn get_string(v: Option<&Json>) -> (s: String)
    ensures
        s@ == string_or_empty(opt_json(v)),
{
    match v {
        Some(j) => match j.as_str() {
            Some(s) => s.to_owned(),
            None => "".to_owned(),
        },
        None => "".to_owned(),
    }
}

/// A path without a leading `file://`.
pub open spec fn bare_path(p: Seq<char>) -> Seq<char> {
    match after_prefix(p, "file://"@) {
        Some(rest) => rest,
        None => p,
    }
}

/// A path without a leading `file://`.
pub fn strip_file(p: &str) -> (r: String)
    ensures
        r@ == bare_path(p@),
{
    match strip_prefix(p, "file://") {
        Some(rest) => rest,
        None => p.to_owned(),
    }
}

/// The path of the current file, from the property `path`; `file://` is stripped.
pub fn now_path(v: Option<&Json>) -> (s: String)
    ensures
        s@ == bare_path(string_or_empty(opt_json(v))),
{
    strip_file(get_string(v).as_str())
}

// ---- starting mpv ----

/// Where the socket stands: as the environment says, or in `/tmp`.
pub open spec fn sock_at(env: Option<Seq<char>>) -> Seq<char> {
    match env {
        Some(s) => s,
        None => "/tmp/siren-mpv.sock"@,
    }
}

/// Where the socket stands, given the environment's `SIREN_SOCK`.
pub fn sock_path(env: Option<String>) -> (s: String)
    ensures
        s@ == sock_at(crate::text::opt_view(env)),
{
    match env {
        Some(s) => s,
        None => "/tmp/siren-mpv.sock".to_owned(),
    }
}

/// The arguments that mpv is started with.
pub open spec fn mpv_argv(sock: Seq<char>) -> Seq<Seq<char>> {
    seq![
        "--idle=yes"@,
        "--no-video"@,
        "--audio-display=no"@,
        "--gapless-audio=yes"@,
        "--volume-max=150"@,
        "--input-ipc-server="@ + sock,
    ]
}

/// The arguments that mpv is started with.
pub fn mpv_args(sock: &str) -> (r: Vec<String>)
    ensures
        views(r@) == mpv_argv(sock@),
{
    let mut r: Vec<String> = Vec::new();
    r.push("--idle=yes".to_owned());
    r.push("--no-video".to_owned());
    r.push("--audio-display=no".to_owned());
    r.push("--gapless-audio=yes".to_owned());
    r.push("--volume-max=150".to_owned());
    r.push(cat2("--input-ipc-server=", sock));
    assert(views(r@) == mpv_argv(sock@));
    r
}

/// What to do next to have mpv running.
#[derive(Debug, Clone, Copy, PartialEq, Eq, Structural)]
pub enum SpawnStep {
    /// It runs.
    Ready,
    /// It cannot be had.
    Failed,
    /// Start the process.
    Launch,
    /// Wait so many milliseconds, then look again.
    Wait(u64),
    /// Wait so many milliseconds, then send the preferences: it runs.
    Settle(u64),
}

/// The first step: mpv that runs is left alone, and it is started once only.
pub fn spawn(alive: bool, attempted: bool) -> (s: SpawnStep)
    ensures
        s == if alive {
            SpawnStep::Ready
        } else if attempted {
            SpawnStep::Failed
        } else {
            SpawnStep::Launch
        },
{
    if alive {
        SpawnStep::Ready
    } else if attempted {
        SpawnStep::Failed
    } else {
        SpawnStep::Launch
    }
}

/// The step after the launch: `launched` says whether the process started, `waited` how
/// often its socket has been waited for, `alive` whether it is there. Twenty waits are
/// granted.
pub open spec fn step_after(launched: bool, waited: int, alive: bool) -> SpawnStep {
    if !launched {
        SpawnStep::Failed
    } else if alive {
        SpawnStep::Settle(150)
    } else if waited < 20 {
        SpawnStep::Wait(50)
    } else {
        SpawnStep::Failed
    }
}

/// The step after the launch.
pub fn spawn_next(launched: bool, waited: u32, alive: bool) -> (s: SpawnStep)
    ensures
        s == step_after(launched, waited as int, alive),
{
    if !launched {
        SpawnStep::Failed
    } else if alive {
        SpawnStep::Settle(150)
    } else if waited < 20 {
        SpawnStep::Wait(50)
    } else {
        SpawnStep::Failed
    }
}

/// The commands that hand the preferences to mpv; the volume only to one that runs.
pub open spec fn pref_commands(c: ConfigV, alive: bool) -> Seq<JsonV> {
    let gapless = mpv3("set_property"@, "gapless-audio"@, JsonV::Str(if c.gapless { "yes"@ } else { "no"@ }));
    let gain = mpv3("set_property"@, "replaygain-mode"@, JsonV::Str(if c.normalize { "track"@ } else { "off"@ }));
    if alive {
        seq![gapless, gain, mpv3("set_property"@, "volume"@, int_v(c.default_volume))]
    } else {
        seq![gapless, gain]
    }
}

/// The commands that hand the preferences to mpv.
pub fn apply_runtime_prefs(cfg: &SirenConfig, alive: bool) -> (r: Vec<Json>)
    ensures
        jsons(r@) == pref_commands(cfg@, alive),
{
    let mut r: Vec<Json> = Vec::new();
    r.push(set_text("gapless-audio", if cfg.gapless { "yes" } else { "no" }));
    r.push(set_text("replaygain-mode", if cfg.normalize { "track" } else { "off" }));
    if alive {
        r.push(set_int("volume", cfg.default_volume as i64));
    }
    assert(jsons(r@) == pref_commands(cfg@, alive));
    r
}

// ---- laws ----

/// The wait for mpv ends: when its socket is there, and after twenty waits in any case.
pub proof fn law_spawn_ends(launched: bool, waited: int, alive: bool)
    requires
        waited >= 20 || alive,
    ensures
        !(step_after(launched, waited, alive) is Wait),
{
}

/// A reply is the datum of its first line that reports success; lines before it that report
/// something else do not matter.
pub proof fn law_reply_is_read(line: Seq<char>, rest: Seq<Seq<char>>)
    ensures
        parsed_or_null(line).str_at("error"@) == Some("success"@) ==> reply_in(seq![line] + rest) == parsed_or_null(line).get(
            "data"@,
        ),
        parsed_or_null(line).str_at("error"@) != Some("success"@) ==> reply_in(seq![line] + rest) == reply_in(rest),
        reply_in(Seq::empty()) is None,
{
    assert((seq![line] + rest).skip(1) =~= rest);
    assert((seq![line] + rest)[0] == line);
}

/// A path is known without `file://`, whether it is given with it or without.
pub proof fn law_path_is_bare(p: Seq<char>)
    ensures
        bare_path("file://"@ + p) == p,
        !crate::text::starts(p, "file://"@) ==> bare_path(p) == p,
{
    let f = "file://"@ + p;
    assert(f.subrange(0, "file://"@.len() as int) =~= "file://"@);
    assert(f.skip("file://"@.len() as int) =~= p);
}

/// The preferences are handed to mpv as they are configured, the volume too where it runs.
pub proof fn law_preferences_are_sent(c: ConfigV, alive: bool)
    ensures
        pref_commands(c, alive).contains(
            JsonV::Arr(
                seq![
                    JsonV::Str("set_property"@),
                    JsonV::Str("gapless-audio"@),
                    JsonV::Str(
                        if c.gapless {
                            "yes"@
                        } else {
                            "no"@
                        },
                    ),
                ],
            ),
        ),
        pref_commands(c, alive).contains(
            JsonV::Arr(
                seq![
                    JsonV::Str("set_property"@),
                    JsonV::Str("replaygain-mode"@),
                    JsonV::Str(
                        if c.normalize {
                            "track"@
                        } else {
                            "off"@
                        },
                    ),
                ],
            ),
        ),
        alive ==> pref_commands(c, alive).last() == JsonV::Arr(
            seq![JsonV::Str("set_property"@), JsonV::Str("volume"@), int_v(c.default_volume)],
        ),
        pref_commands(c, alive).len() == if alive {
            3
        } else {
            2int
        },
{
    let p = pref_commands(c, alive);
    assert(p.contains(p[0]));
    assert(p.contains(p[1]));
}

/// mpv is started to be spoken to at the socket, without video, and to stay when nothing plays.
pub proof fn law_mpv_listens(sock: Seq<char>)
    ensures
        mpv_argv(sock).contains("--input-ipc-server="@ + sock),
        mpv_argv(sock).contains("--idle=yes"@),
        mpv_argv(sock).contains("--no-video"@),
{
    let a = mpv_argv(sock);
    assert(a[5] == "--input-ipc-server="@ + sock && a[0] == "--idle=yes"@ && a[1] == "--no-video"@);
    assert(a.contains(a[5]) && a.contains(a[0]) && a.contains(a[1]));
}

/// After the launch mpv is waited for while its socket is not there, and settles once it is.
pub proof fn law_mpv_is_waited_for(waited: int)
    ensures
        0 <= waited < 20 ==> step_after(true, waited, false) == SpawnStep::Wait(50),
        step_after(true, waited, true) == SpawnStep::Settle(150),
        waited >= 20 ==> step_after(true, waited, false) == SpawnStep::Failed,
        step_after(false, waited, true) == SpawnStep::Failed,
{
}

/// What mpv gives of a property is taken as it is, where it is of the kind that is asked for, else
/// the default, or no text; what it sends is the data of the first line that reports success.
pub proof fn law_property_is_taken(data: Seq<u8>, line: Seq<char>, rest: Seq<Seq<char>>, v: JsonV, b: bool, s: Seq<char>, d: bool)
    ensures
        bool_or(Some(JsonV::Bool(b)), d) == b,
        bool_or(Some(JsonV::Str(s)), d) == d,
        bool_or(None, d) == d,
        string_or_empty(Some(JsonV::Str(s))) == s,
        string_or_empty(Some(JsonV::Bool(b))) == ""@,
        string_or_empty(None) == ""@,
        lines(lossy(data)) == seq![line] + rest && parsed_or_null(line).str_at("error"@) == Some("success"@) ==> reply_of(data)
            == parsed_or_null(line).get("data"@),
        lines(lossy(data)).len() == 0 ==> reply_of(data) is None,
{
    law_reply_is_read(line, rest);
}

/// A command goes to mpv as an object with the words under `command`, on a line of its own, over the
/// socket that is set, or else over the usual one.
pub proof fn law_command_is_a_line(argv: JsonV, sock: Seq<char>)
    ensures
        payload_of(argv) == json_compact(value_stored(JsonV::Obj(seq![("command"@, argv)]))) + "\n"@,
        sock_at(Some(sock)) == sock,
        sock_at(None) == "/tmp/siren-mpv.sock"@,
{
}

/// mpv stays when it has nothing to play, shows no picture, and may be louder than its own full
/// volume; it is reached over the socket.
pub proof fn law_mpv_is_started(sock: Seq<char>)
    ensures
        mpv_argv(sock).contains("--idle=yes"@),
        mpv_argv(sock).contains("--no-video"@),
        mpv_argv(sock).contains("--audio-display=no"@),
        mpv_argv(sock).contains("--gapless-audio=yes"@),
        mpv_argv(sock).contains("--volume-max=150"@),
        mpv_argv(sock).contains("--input-ipc-server="@ + sock),
        mpv_argv(sock).len() == 6,
{
    let a = mpv_argv(sock);
    assert(a[0] == "--idle=yes"@ && a[1] == "--no-video"@ && a[2] == "--audio-display=no"@ && a[3] == "--gapless-audio=yes"@);
    assert(a[4] == "--volume-max=150"@ && a[5] == "--input-ipc-server="@ + sock);
}

} // verus!
