//! The player's configuration: defaults, reading it, getting and setting one key.

use vstd::prelude::*;
use crate::json::{
    int_v, json_arr, json_i64, json_obj, json_parsed, json_str, jsons, member_of, members, parse, reads_as, texts, texts_of, Json,
    JsonV,
};
use crate::nums::{dec, dec_i64, int_in, parse_i32};
use crate::text::{
    all_ascii, blank, copy_list, drop_empty, filled, is_blank, join, joined, lower, lowered, opt_view, res_view, same, split,
    split_at_char, trim, trimmed, views,
};

verus! {

/// What the user can configure.
#[derive(Debug, Clone)]
pub struct SirenConfig {
    pub default_volume: i32,
    pub library_roots: Vec<String>,
    pub fuzzy_search: bool,
    pub waves: bool,
    pub gapless: bool,
    pub normalize: bool,
    pub cache_meta: bool,
    pub wave_bands: i32,
    pub mouse: bool,
    /// Audio routing: "local" (mpv) or "heos" (network speaker).
    pub audio_output: String,
    /// Preferred HEOS speaker (name fragment).
    pub audio_speaker: String,
}

/// The model of a [`SirenConfig`].
#[verifier::ext_equal]
pub struct ConfigV {
    pub default_volume: int,
    pub library_roots: Seq<Seq<char>>,
    pub fuzzy_search: bool,
    pub waves: bool,
    pub gapless: bool,
    pub normalize: bool,
    pub cache_meta: bool,
    pub wave_bands: int,
    pub mouse: bool,
    pub audio_output: Seq<char>,
    pub audio_speaker: Seq<char>,
}

impl View for SirenConfig {
    type V = ConfigV;

    open spec fn view(&self) -> ConfigV {
        ConfigV {
            default_volume: self.default_volume as int,
            library_roots: views(self.library_roots@),
            fuzzy_search: self.fuzzy_search,
            waves: self.waves,
            gapless: self.gapless,
            normalize: self.normalize,
            cache_meta: self.cache_meta,
            wave_bands: self.wave_bands as int,
            mouse: self.mouse,
            audio_output: self.audio_output@,
            audio_speaker: self.audio_speaker@,
        }
    }
}

impl ConfigV {
    /// The configuration of a fresh installation.
    pub open spec fn fresh() -> ConfigV {
        ConfigV {
            default_volume: 75,
            library_roots: seq!["~/Music"@],
            fuzzy_search: true,
            waves: true,
            gapless: true,
            normalize: false,
            cache_meta: true,
            wave_bands: 16,
            mouse: true,
            audio_output: "local"@,
            audio_speaker: "Vanguarda Office"@,
        }
    }

    /// What every configuration keeps: the volume is between 0 and 150, there is a library
    /// root, the wave bands are one of four counts, the output is known, and a speaker is
    /// named.
    pub open spec fn wf(self) -> bool {
        &&& 0 <= self.default_volume <= 150
        &&& self.library_roots.len() > 0
        &&& is_band_count(self.wave_bands)
        &&& is_output(self.audio_output)
        &&& !blank(self.audio_speaker)
    }

    /// Whether playback goes to the network speaker.
    pub open spec fn to_speaker(self) -> bool {
        self.audio_output == "heos"@
    }
}

/// A number of wave bands that can be set.
pub open spec fn is_band_count(n: int) -> bool {
    n == 8 || n == 16 || n == 32 || n == 64
}

/// A known audio output.
pub open spec fn is_output(s: Seq<char>) -> bool {
    s == "local"@ || s == "heos"@
}

/// A word that switches something on.
pub open spec fn is_yes(s: Seq<char>) -> bool {
    s == "1"@ || s == "yes"@ || s == "true"@ || s == "on"@
}

/// How a switch is shown.
pub open spec fn onoff_text(b: bool) -> Seq<char> {
    if b {
        "on"@
    } else {
        "off"@
    }
}

/// The number of bands that a text names.
pub open spec fn band_count(s: Seq<char>) -> Option<int> {
    if s == "8"@ {
        Some(8)
    } else if s == "16"@ {
        Some(16)
    } else if s == "32"@ {
        Some(32)
    } else if s == "64"@ {
        Some(64)
    } else {
        None
    }
}

/// The comma-separated parts of a text, trimmed, without the empty ones.
pub open spec fn comma_parts(s: Seq<char>) -> Seq<Seq<char>> {
    let pieces = split(s, |c: char| c == ',');
    filled(Seq::new(pieces.len(), |i: int| trim(pieces[i])))
}

// ---- reading ----

/// The configuration that a JSON value describes: what it gives and what is valid is taken,
/// the rest stays at its default.
pub open spec fn config_of(v: JsonV) -> ConfigV {
    let d = ConfigV::fresh();
    ConfigV {
        default_volume: match v.i64_at("default_volume"@) {
            Some(n) => if 0 <= n <= 150 {
                n as int
            } else {
                d.default_volume
            },
            None => d.default_volume,
        },
        library_roots: match v.arr_at("library_roots"@) {
            Some(a) => if texts(a).len() > 0 {
                texts(a)
            } else {
                d.library_roots
            },
            None => d.library_roots,
        },
        fuzzy_search: switch_of(v, "fuzzy_search"@, d.fuzzy_search),
        waves: switch_of(v, "waves"@, d.waves),
        gapless: switch_of(v, "gapless"@, d.gapless),
        normalize: switch_of(v, "normalize"@, d.normalize),
        cache_meta: switch_of(v, "cache_meta"@, d.cache_meta),
        wave_bands: match v.i64_at("wave_bands"@) {
            Some(n) => if is_band_count(n as int) {
                n as int
            } else {
                d.wave_bands
            },
            None => d.wave_bands,
        },
        mouse: switch_of(v, "mouse"@, d.mouse),
        audio_output: match v.str_at("audio_output"@) {
            Some(s) => if is_output(lower(s)) {
                lower(s)
            } else {
                d.audio_output
            },
            None => d.audio_output,
        },
        audio_speaker: match v.str_at("audio_speaker"@) {
            Some(s) => if !blank(s) {
                s
            } else {
                d.audio_speaker
            },
            None => d.audio_speaker,
        },
    }
}

/// A truth value of a configuration, or its default.
pub open spec fn switch_of(v: JsonV, key: Seq<char>, other: bool) -> bool {
    match v.bool_at(key) {
        Some(b) => b,
        None => other,
    }
}

/// The configuration that the text of a configuration file describes. An empty or corrupt
/// file describes the default.
pub open spec fn config_loaded(raw: Seq<char>) -> ConfigV {
    if blank(raw) {
        ConfigV::fresh()
    } else {
        match json_parsed(raw) {
            Ok(v) => config_of(v),
            Err(_) => ConfigV::fresh(),
        }
    }
}

// ---- writing ----

/// Texts as JSON values.
pub open spec fn text_values(v: Seq<Seq<char>>) -> Seq<JsonV> {
    Seq::new(v.len(), |i: int| JsonV::Str(v[i]))
}

/// A configuration as JSON: each key with its value, in the order of the keys.
pub open spec fn config_json(c: ConfigV) -> JsonV {
    JsonV::Obj(
        seq![
            ("default_volume"@, int_v(c.default_volume)),
            ("library_roots"@, JsonV::Arr(text_values(c.library_roots))),
            ("fuzzy_search"@, JsonV::Bool(c.fuzzy_search)),
            ("waves"@, JsonV::Bool(c.waves)),
            ("gapless"@, JsonV::Bool(c.gapless)),
            ("normalize"@, JsonV::Bool(c.normalize)),
            ("cache_meta"@, JsonV::Bool(c.cache_meta)),
            ("wave_bands"@, int_v(c.wave_bands)),
            ("mouse"@, JsonV::Bool(c.mouse)),
            ("audio_output"@, JsonV::Str(c.audio_output)),
            ("audio_speaker"@, JsonV::Str(c.audio_speaker)),
        ],
    )
}

fn encode_texts(v: &Vec<String>) -> (j: Json)
    ensures
        j@ == JsonV::Arr(text_values(views(v@))),
{
    let mut a: Vec<Json> = Vec::new();
    let ghost all = views(v@);
    for i in 0..v.len()
        invariant
            all == views(v@),
            a.len() == i,
            forall|k: int| 0 <= k < i ==> (#[trigger] a@[k])@ == JsonV::Str(all[k]),
    {
        a.push(json_str(v[i].as_str()));
    }
    assert(jsons(a@) == text_values(all));
    json_arr(a)
}

// ---- one key ----

/// The shown value of a key; `None` for an unknown one.
pub open spec fn config_get(c: ConfigV, key: Seq<char>) -> Option<Seq<char>> {
    let k = lower(key);
    if k == "default_volume"@ {
        Some(dec(c.default_volume))
    } else if k == "library_roots"@ {
        Some(join(c.library_roots, ", "@))
    } else if k == "fuzzy_search"@ {
        Some(onoff_text(c.fuzzy_search))
    } else if k == "waves"@ {
        Some(onoff_text(c.waves))
    } else if k == "gapless"@ {
        Some(onoff_text(c.gapless))
    } else if k == "normalize"@ {
        Some(onoff_text(c.normalize))
    } else if k == "cache_meta"@ {
        Some(onoff_text(c.cache_meta))
    } else if k == "wave_bands"@ {
        Some(dec(c.wave_bands))
    } else if k == "mouse"@ {
        Some(onoff_text(c.mouse))
    } else if k == "audio_output"@ {
        Some(c.audio_output)
    } else if k == "audio_speaker"@ {
        Some(c.audio_speaker)
    } else {
        None
    }
}

/// Setting a key from text: the new configuration, and the shown value or what is wrong.
pub open spec fn config_set(c: ConfigV, key: Seq<char>, val: Seq<char>) -> (ConfigV, Result<Seq<char>, Seq<char>>) {
    let k = lower(key);
    let t = trim(val);
    let on = is_yes(lower(t));
    if k == "default_volume"@ {
        match int_in(t, i32::MIN as int, i32::MAX as int) {
            None => (c, Err("expects an integer (0-150)"@)),
            Some(n) => if 0 <= n <= 150 {
                (ConfigV { default_volume: n, ..c }, Ok(dec(n)))
            } else {
                (c, Err("expects 0-150"@))
            },
        }
    } else if k == "library_roots"@ {
        let parts = comma_parts(val);
        if parts.len() == 0 {
            (c, Err("expects comma-separated paths"@))
        } else {
            (ConfigV { library_roots: parts, ..c }, Ok(join(parts, ", "@)))
        }
    } else if k == "fuzzy_search"@ {
        (ConfigV { fuzzy_search: on, ..c }, Ok(onoff_text(on)))
    } else if k == "waves"@ {
        (ConfigV { waves: on, ..c }, Ok(onoff_text(on)))
    } else if k == "gapless"@ {
        (ConfigV { gapless: on, ..c }, Ok(onoff_text(on)))
    } else if k == "normalize"@ {
        (ConfigV { normalize: on, ..c }, Ok(onoff_text(on)))
    } else if k == "cache_meta"@ {
        (ConfigV { cache_meta: on, ..c }, Ok(onoff_text(on)))
    } else if k == "mouse"@ {
        (ConfigV { mouse: on, ..c }, Ok(onoff_text(on)))
    } else if k == "wave_bands"@ {
        match band_count(t) {
            Some(n) => (ConfigV { wave_bands: n, ..c }, Ok(t)),
            None => (c, Err("expects 8, 16, 32 or 64"@)),
        }
    } else if k == "audio_output"@ {
        if is_output(lower(t)) {
            (ConfigV { audio_output: lower(t), ..c }, Ok(lower(t)))
        } else {
            (c, Err("expects local or heos"@))
        }
    } else if k == "audio_speaker"@ {
        if t.len() == 0 {
            (c, Err("expects a speaker name"@))
        } else {
            (ConfigV { audio_speaker: t, ..c }, Ok(t))
        }
    } else {
        (c, Err("unknown key: "@ + key))
    }
}

/// The keys, in the order in which they are listed.
pub open spec fn config_keys() -> Seq<Seq<char>> {
    seq![
        "default_volume"@,
        "library_roots"@,
        "fuzzy_search"@,
        "waves"@,
        "gapless"@,
        "normalize"@,
        "cache_meta"@,
        "wave_bands"@,
        "mouse"@,
        "audio_output"@,
        "audio_speaker"@,
    ]
}

fn d_volume() -> (n: i32)
    ensures
        n == ConfigV::fresh().default_volume,
{
    75
}

fn d_roots() -> (r: Vec<String>)
    ensures
        views(r@) == ConfigV::fresh().library_roots,
{
    let mut r: Vec<String> = Vec::new();
    r.push("~/Music".to_owned());
    assert(views(r@) == ConfigV::fresh().library_roots);
    r
}

fn d_bands() -> (n: i32)
    ensures
        n == ConfigV::fresh().wave_bands,
{
    16
}

fn d_output() -> (s: String)
    ensures
        s@ == ConfigV::fresh().audio_output,
{
    "local".to_owned()
}

fn d_speaker() -> (s: String)
    ensures
        s@ == ConfigV::fresh().audio_speaker,
{
    "Vanguarda Office".to_owned()
}

/// How a switch is shown.
pub fn onoff(b: bool) -> (s: String)
    ensures
        s@ == onoff_text(b),
{
    if b {
        "on".to_owned()
    } else {
        "off".to_owned()
    }
}

fn yes_word(s: &str) -> (b: bool)
    ensures
        b == is_yes(s@),
{
    same(s, "1") || same(s, "yes") || same(s, "true") || same(s, "on")
}

fn known_output(s: &str) -> (b: bool)
    ensures
        b == is_output(s@),
{
    same(s, "local") || same(s, "heos")
}

fn band_count_of(s: &str) -> (r: Option<i32>)
    ensures
        match r {
            Some(n) => band_count(s@) == Some(n as int),
            None => band_count(s@) is None,
        },
{
    if same(s, "8") {
        Some(8)
    } else if same(s, "16") {
        Some(16)
    } else if same(s, "32") {
        Some(32)
    } else if same(s, "64") {
        Some(64)
    } else {
        None
    }
}

fn comma_parts_of(s: &str) -> (r: Vec<String>)
    ensures
        views(r@) == comma_parts(s@),
{
    let pieces = split_at_char(s, ',');
    proof {
        assert((|x: char| x == ',') == (|c: char| c == ','));
    }
    let mut out: Vec<String> = Vec::new();
    for i in 0..pieces.len()
        invariant
            out.len() == i,
            forall|j: int| 0 <= j < i ==> out@[j]@ == trim(pieces@[j]@),
    {
        out.push(trimmed(pieces[i].as_str()));
    }
    proof {
        let all = split(s@, |c: char| c == ',');
        assert(views(out@) == Seq::new(all.len(), |i: int| trim(all[i])));
    }
    drop_empty(out)
}

fn switch_in(v: &Json, key: &str, other: bool) -> (b: bool)
    ensures
        b == switch_of(v@, key@, other),
{
    match v.bool_at(key) {
        Some(b) => b,
        None => other,
    }
}

impl Default for SirenConfig {
    fn default() -> (c: Self)
        ensures
            c@ == ConfigV::fresh(),
            c@.wf(),
    {
        proof {
            lemma_fresh_wf();
        }
        SirenConfig {
            default_volume: d_volume(),
            library_roots: d_roots(),
            fuzzy_search: true,
            waves: true,
            gapless: true,
            normalize: false,
            cache_meta: true,
            wave_bands: d_bands(),
            mouse: true,
            audio_output: d_output(),
            audio_speaker: d_speaker(),
        }
    }
}

impl SirenConfig {
    /// Reads the text of a configuration file.
    pub fn load(raw: &str) -> (c: Self)
        ensures
            c@ == config_loaded(raw@),
            c@.wf(),
    {
        if is_blank(raw) {
            return SirenConfig::default();
        }
        match parse(raw) {
            Ok(v) => SirenConfig::from_json(&v),
            Err(_) => SirenConfig::default(),
        }
    }

    /// Takes from a JSON value what it gives and what is valid.
    pub fn from_json(v: &Json) -> (c: Self)
        ensures
            c@ == config_of(v@),
            c@.wf(),
    {
        let mut cfg = SirenConfig::default();
        match v.i64_at("default_volume") {
            Some(n) => {
                if 0 <= n && n <= 150 {
                    cfg.default_volume = n as i32;
                }
            },
            None => {},
        }
        match v.arr_at("library_roots") {
            Some(a) => {
                let roots = texts_of(a);
                if roots.len() > 0 {
                    cfg.library_roots = roots;
                }
            },
            None => {},
        }
        cfg.fuzzy_search = switch_in(v, "fuzzy_search", cfg.fuzzy_search);
        cfg.waves = switch_in(v, "waves", cfg.waves);
        cfg.gapless = switch_in(v, "gapless", cfg.gapless);
        cfg.normalize = switch_in(v, "normalize", cfg.normalize);
        cfg.cache_meta = switch_in(v, "cache_meta", cfg.cache_meta);
        cfg.mouse = switch_in(v, "mouse", cfg.mouse);
        match v.i64_at("wave_bands") {
            Some(n) => {
                if n == 8 || n == 16 || n == 32 || n == 64 {
                    cfg.wave_bands = n as i32;
                }
            },
            None => {},
        }
        match v.str_at("audio_output") {
            Some(s) => {
                let lo = lowered(s);
                if known_output(lo.as_str()) {
                    cfg.audio_output = lo;
                }
            },
            None => {},
        }
        match v.str_at("audio_speaker") {
            Some(s) => {
                if !is_blank(s) {
                    cfg.audio_speaker = s.to_owned();
                }
            },
            None => {},
        }
        cfg
    }

    /// What is stored of the configuration.
    pub fn save(&self) -> (j: Json)
        ensures
            j@ == config_json(self@),
    {
        let mut o: Vec<(String, Json)> = Vec::new();
        o.push(member_of("default_volume", json_i64(self.default_volume as i64)));
        o.push(member_of("library_roots", encode_texts(&self.library_roots)));
        o.push(member_of("fuzzy_search", Json::Bool(self.fuzzy_search)));
        o.push(member_of("waves", Json::Bool(self.waves)));
        o.push(member_of("gapless", Json::Bool(self.gapless)));
        o.push(member_of("normalize", Json::Bool(self.normalize)));
        o.push(member_of("cache_meta", Json::Bool(self.cache_meta)));
        o.push(member_of("wave_bands", json_i64(self.wave_bands as i64)));
        o.push(member_of("mouse", Json::Bool(self.mouse)));
        o.push(member_of("audio_output", json_str(self.audio_output.as_str())));
        o.push(member_of("audio_speaker", json_str(self.audio_speaker.as_str())));
        assert(members(o@) == config_json(self@)->Obj_0);
        json_obj(o)
    }

    /// Sets one key from text. Returns the shown value, or what is wrong; then nothing
    /// has changed. A valid configuration stays valid.
    pub fn set(&mut self, key: &str, val: &str) -> (r: Result<String, String>)
        ensures
            final(self)@ == config_set(old(self)@, key@, val@).0,
            res_view(r) == config_set(old(self)@, key@, val@).1,
            old(self)@.wf() ==> final(self)@.wf(),
    {
        proof {
            if self@.wf() {
                law_set_keeps_wf(self@, key@, val@);
            }
        }
        let k = lowered(key);
        let k = k.as_str();
        let t = trimmed(val);
        let on = yes_word(lowered(t.as_str()).as_str());
        if same(k, "default_volume") {
            match parse_i32(t.as_str()) {
                None => Err("expects an integer (0-150)".to_owned()),
                Some(n) => {
                    if n < 0 || n > 150 {
                        return Err("expects 0-150".to_owned());
                    }
                    self.default_volume = n;
                    Ok(dec_i64(n as i64))
                },
            }
        } else if same(k, "library_roots") {
            let parts = comma_parts_of(val);
            if parts.len() == 0 {
                return Err("expects comma-separated paths".to_owned());
            }
            let shown = joined(&parts, ", ");
            self.library_roots = parts;
            Ok(shown)
        } else if same(k, "fuzzy_search") {
            self.fuzzy_search = on;
            Ok(onoff(on))
        } else if same(k, "waves") {
            self.waves = on;
            Ok(onoff(on))
        } else if same(k, "gapless") {
            self.gapless = on;
            Ok(onoff(on))
        } else if same(k, "normalize") {
            self.normalize = on;
            Ok(onoff(on))
        } else if same(k, "cache_meta") {
            self.cache_meta = on;
            Ok(onoff(on))
        } else if same(k, "mouse") {
            self.mouse = on;
            Ok(onoff(on))
        } else if same(k, "wave_bands") {
            match band_count_of(t.as_str()) {
                Some(n) => {
                    self.wave_bands = n;
                    Ok(t)
                },
                None => Err("expects 8, 16, 32 or 64".to_owned()),
            }
        } else if same(k, "audio_output") {
            let lo = lowered(t.as_str());
            if known_output(lo.as_str()) {
                self.audio_output = lo.clone();
                Ok(lo)
            } else {
                Err("expects local or heos".to_owned())
            }
        } else if same(k, "audio_speaker") {
            if t.as_str().is_empty() {
                return Err("expects a speaker name".to_owned());
            }
            self.audio_speaker = t.clone();
            Ok(t)
        } else {
            Err(crate::text::cat2("unknown key: ", key))
        }
    }

    /// The shown value of a key; `None` for an unknown one.
    pub fn get(&self, key: &str) -> (r: Option<String>)
        ensures
            opt_view(r) == config_get(self@, key@),
    {
        let k = lowered(key);
        let k = k.as_str();
        if same(k, "default_volume") {
            Some(dec_i64(self.default_volume as i64))
        } else if same(k, "library_roots") {
            Some(joined(&self.library_roots, ", "))
        } else if same(k, "fuzzy_search") {
            Some(onoff(self.fuzzy_search))
        } else if same(k, "waves") {
            Some(onoff(self.waves))
        } else if same(k, "gapless") {
            Some(onoff(self.gapless))
        } else if same(k, "normalize") {
            Some(onoff(self.normalize))
        } else if same(k, "cache_meta") {
            Some(onoff(self.cache_meta))
        } else if same(k, "wave_bands") {
            Some(dec_i64(self.wave_bands as i64))
        } else if same(k, "mouse") {
            Some(onoff(self.mouse))
        } else if same(k, "audio_output") {
            Some(self.audio_output.clone())
        } else if same(k, "audio_speaker") {
            Some(self.audio_speaker.clone())
        } else {
            None
        }
    }

    /// The keys, in the order in which they are listed.
    pub fn keys() -> (r: Vec<String>)
        ensures
            views(r@) == config_keys(),
    {
        let mut r: Vec<String> = Vec::new();
        r.push("default_volume".to_owned());
        r.push("library_roots".to_owned());
        r.push("fuzzy_search".to_owned());
        r.push("waves".to_owned());
        r.push("gapless".to_owned());
        r.push("normalize".to_owned());
        r.push("cache_meta".to_owned());
        r.push("wave_bands".to_owned());
        r.push("mouse".to_owned());
        r.push("audio_output".to_owned());
        r.push("audio_speaker".to_owned());
        assert(views(r@) == config_keys());
        r
    }

    /// Whether playback goes to the network speaker.
    pub fn use_heos(&self) -> (b: bool)
        ensures
            b == self@.to_speaker(),
    {
        same(self.audio_output.as_str(), "heos")
    }

    /// A copy.
    pub fn copy(&self) -> (c: Self)
        ensures
            c@ == self@,
    {
        SirenConfig {
            default_volume: self.default_volume,
            library_roots: copy_list(&self.library_roots),
            fuzzy_search: self.fuzzy_search,
            waves: self.waves,
            gapless: self.gapless,
            normalize: self.normalize,
            cache_meta: self.cache_meta,
            wave_bands: self.wave_bands,
            mouse: self.mouse,
            audio_output: self.audio_output.clone(),
            audio_speaker: self.audio_speaker.clone(),
        }
    }
}

// ---- laws ----

proof fn lemma_keys_differ()
    ensures
        forall|i: int, j: int| 0 <= i < j < config_keys().len() ==> config_keys()[i] != config_keys()[j],
{
    reveal_strlit("default_volume");
    reveal_strlit("library_roots");
    reveal_strlit("fuzzy_search");
    reveal_strlit("waves");
    reveal_strlit("gapless");
    reveal_strlit("normalize");
    reveal_strlit("cache_meta");
    reveal_strlit("wave_bands");
    reveal_strlit("mouse");
    reveal_strlit("audio_output");
    reveal_strlit("audio_speaker");
    lemma_key_index();
    let ks = config_keys();
    assert(ks[0].len() == 14 && ks[1].len() == 13 && ks[2].len() == 12 && ks[3].len() == 5);
    assert(ks[4].len() == 7 && ks[5].len() == 9 && ks[6].len() == 10 && ks[7].len() == 10);
    assert(ks[8].len() == 5 && ks[9].len() == 12 && ks[10].len() == 13);
    assert(ks[2][0] == 'f' && ks[9][0] == 'a' && ks[3][0] == 'w' && ks[8][0] == 'm');
    assert(ks[6][0] == 'c' && ks[7][0] == 'w' && ks[1][0] == 'l' && ks[10][0] == 'a');
    assert forall|i: int, j: int| 0 <= i < j < ks.len() implies ks[i] != ks[j] by {
        assert(i == 0 || i == 1 || i == 2 || i == 3 || i == 4 || i == 5 || i == 6 || i == 7 || i == 8 || i == 9);
        assert(j == 1 || j == 2 || j == 3 || j == 4 || j == 5 || j == 6 || j == 7 || j == 8 || j == 9 || j == 10);
    }
}

/// A key that was set shows what setting it returned.
pub proof fn law_set_get(c: ConfigV, key: Seq<char>, val: Seq<char>)
    ensures
        match config_set(c, key, val).1 {
            Ok(shown) => config_get(config_set(c, key, val).0, key) == Some(shown),
            Err(_) => config_set(c, key, val).0 == c,
        },
{
    lemma_keys_differ();
    lemma_key_index();
    reveal_strlit("8");
    reveal_strlit("16");
    reveal_strlit("32");
    reveal_strlit("64");
    reveal_with_fuel(crate::nums::dec_nat, 3);
    assert(dec(8) == "8"@);
    assert(dec(16) == "16"@);
    assert(dec(32) == "32"@);
    assert(dec(64) == "64"@);
}

proof fn lemma_key_index()
    ensures
        config_keys()[0] == "default_volume"@,
        config_keys()[1] == "library_roots"@,
        config_keys()[2] == "fuzzy_search"@,
        config_keys()[3] == "waves"@,
        config_keys()[4] == "gapless"@,
        config_keys()[5] == "normalize"@,
        config_keys()[6] == "cache_meta"@,
        config_keys()[7] == "wave_bands"@,
        config_keys()[8] == "mouse"@,
        config_keys()[9] == "audio_output"@,
        config_keys()[10] == "audio_speaker"@,
{
}

/// Setting one key changes what no other key shows.
pub proof fn law_set_keeps_other_keys(c: ConfigV, key: Seq<char>, val: Seq<char>, other: Seq<char>)
    requires
        lower(other) != lower(key),
    ensures
        config_get(config_set(c, key, val).0, other) == config_get(c, other),
{
    lemma_keys_differ();
    lemma_key_index();
}

/// Setting a key keeps a configuration valid.
pub proof fn law_set_keeps_wf(c: ConfigV, key: Seq<char>, val: Seq<char>)
    requires
        c.wf(),
    ensures
        config_set(c, key, val).0.wf(),
{
    crate::text::law_trim_twice(val);
}

/// Whatever a configuration file holds, the configuration read from it is valid, as that of a
/// fresh installation is.
pub proof fn law_loaded_wf(raw: Seq<char>)
    ensures
        config_loaded(raw).wf(),
        ConfigV::fresh().wf(),
{
    lemma_fresh_wf();
}

proof fn lemma_outputs_lower(s: Seq<char>)
    requires
        is_output(s),
    ensures
        lower(s) == s,
{
    reveal_strlit("local");
    reveal_strlit("heos");
    assert(all_ascii(s));
    assert(lower(s) =~= s);
}

proof fn lemma_fresh_wf()
    ensures
        ConfigV::fresh().wf(),
{
    reveal_strlit("Vanguarda Office");
    let s = "Vanguarda Office"@;
    assert(s.len() == 16 && s[0] == 'V' && s.last() == 'e');
    assert(trim(s) == s);
}

proof fn lemma_texts_of_values(v: Seq<Seq<char>>)
    ensures
        texts(text_values(v)) == v,
    decreases v.len(),
{
    if v.len() > 0 {
        lemma_texts_of_values(v.drop_last());
        assert(text_values(v).drop_last() == text_values(v.drop_last()));
        assert(v.drop_last().push(v.last()) == v);
    } else {
        assert(text_values(v) == Seq::<JsonV>::empty());
        assert(v == Seq::<Seq<char>>::empty());
    }
}

proof fn lemma_stored_members(c: ConfigV)
    ensures
        config_json(c).get("default_volume"@) == Some(int_v(c.default_volume)),
        config_json(c).get("library_roots"@) == Some(JsonV::Arr(text_values(c.library_roots))),
        config_json(c).get("fuzzy_search"@) == Some(JsonV::Bool(c.fuzzy_search)),
        config_json(c).get("waves"@) == Some(JsonV::Bool(c.waves)),
        config_json(c).get("gapless"@) == Some(JsonV::Bool(c.gapless)),
        config_json(c).get("normalize"@) == Some(JsonV::Bool(c.normalize)),
        config_json(c).get("cache_meta"@) == Some(JsonV::Bool(c.cache_meta)),
        config_json(c).get("wave_bands"@) == Some(int_v(c.wave_bands)),
        config_json(c).get("mouse"@) == Some(JsonV::Bool(c.mouse)),
        config_json(c).get("audio_output"@) == Some(JsonV::Str(c.audio_output)),
        config_json(c).get("audio_speaker"@) == Some(JsonV::Str(c.audio_speaker)),
{
    lemma_keys_differ();
    lemma_key_index();
    let o = config_json(c)->Obj_0;
    assert forall|i: int| 0 <= i < o.len() implies (#[trigger] o[i]).0 == config_keys()[i] by {
        assert(i == 0 || i == 1 || i == 2 || i == 3 || i == 4 || i == 5 || i == 6 || i == 7 || i == 8 || i == 9 || i == 10);
    }
    assert forall|i: int| 0 <= i < o.len() implies crate::json::member(o, #[trigger] o[i].0) == Some(o[i].1) by {
        lemma_member_at(o, i);
    }
    assert(o[0].0 == config_keys()[0] && o[1].0 == config_keys()[1] && o[2].0 == config_keys()[2]);
    assert(o[3].0 == config_keys()[3] && o[4].0 == config_keys()[4] && o[5].0 == config_keys()[5]);
    assert(o[6].0 == config_keys()[6] && o[7].0 == config_keys()[7] && o[8].0 == config_keys()[8]);
    assert(o[9].0 == config_keys()[9] && o[10].0 == config_keys()[10]);
}

proof fn lemma_member_at(o: Seq<(Seq<char>, JsonV)>, i: int)
    requires
        0 <= i < o.len(),
        forall|a: int, b: int| 0 <= a < b < o.len() ==> (#[trigger] o[a]).0 != (#[trigger] o[b]).0,
    ensures
        crate::json::member(o, o[i].0) == Some(o[i].1),
    decreases o.len(),
{
    let front = o.drop_last();
    if i < o.len() - 1 {
        assert forall|a: int, b: int| 0 <= a < b < front.len() implies (#[trigger] front[a]).0 != (#[trigger] front[b]).0 by {
            assert(front[a] == o[a] && front[b] == o[b]);
        }
        lemma_member_at(front, i);
        assert(front[i] == o[i]);
    } else {
        lemma_no_member(front, o[i].0);
    }
}

proof fn lemma_no_member(o: Seq<(Seq<char>, JsonV)>, key: Seq<char>)
    requires
        forall|a: int| 0 <= a < o.len() ==> (#[trigger] o[a]).0 != key,
    ensures
        crate::json::member(o, key) is None,
    decreases o.len(),
{
    if o.len() > 0 {
        assert forall|a: int| 0 <= a < o.drop_last().len() implies (#[trigger] o.drop_last()[a]).0 != key by {
            assert(o.drop_last()[a] == o[a]);
        }
        lemma_no_member(o.drop_last(), key);
    }
}

/// What is stored of a valid configuration reads back as it was. So does every value with the
/// same members, in any order, and every text that reads as such a value.
pub proof fn law_saved_config_loads(c: ConfigV, v: JsonV, raw: Seq<char>)
    requires
        c.wf(),
        forall|key: Seq<char>| #[trigger] v.get(key) == config_json(c).get(key),
    ensures
        config_of(config_json(c)) == c,
        config_of(v) == c,
        reads_as(raw, v) && !blank(raw) ==> config_loaded(raw) == c,
{
    lemma_stored_members(c);
    lemma_texts_of_values(c.library_roots);
    lemma_outputs_lower(c.audio_output);
    assert(config_of(config_json(c)) =~= c);
    assert(config_of(v) =~= c);
}

/// Exactly the listed keys have a value.
pub proof fn law_keys_have_values(c: ConfigV, key: Seq<char>)
    ensures
        config_get(c, key) is Some <==> config_keys().contains(lower(key)),
{
    lemma_key_index();
    let k = lower(key);
    if config_get(c, key) is Some {
        assert(exists|i: int| 0 <= i < config_keys().len() && config_keys()[i] == k);
    }
}

/// A volume that is written in decimal is set where it lies between 0 and 150, and refused where it
/// does not; a speaker is set by its name, the output by its name in any case, and the wave bands to
/// one of four counts.
pub proof fn law_value_is_set(c: ConfigV, val: Seq<char>, n: int)
    requires
        i32::MIN <= n <= i32::MAX,
    ensures
        trim(val) == dec(n) && 0 <= n <= 150 ==> config_set(c, "default_volume"@, val) == (
            ConfigV { default_volume: n, ..c },
            Ok::<Seq<char>, Seq<char>>(dec(n)),
        ),
        trim(val) == dec(n) && !(0 <= n <= 150) ==> config_set(c, "default_volume"@, val) == (
            c,
            Err::<Seq<char>, Seq<char>>("expects 0-150"@),
        ),
        trim(val).len() > 0 ==> config_set(c, "audio_speaker"@, val) == (
            ConfigV { audio_speaker: trim(val), ..c },
            Ok::<Seq<char>, Seq<char>>(trim(val)),
        ),
        lower(trim(val)) == "heos"@ ==> config_set(c, "audio_output"@, val).0 == (ConfigV { audio_output: "heos"@, ..c })
            && config_set(c, "audio_output"@, val).0.to_speaker(),
        lower(trim(val)) == "local"@ ==> config_set(c, "audio_output"@, val).0 == (ConfigV { audio_output: "local"@, ..c })
            && !config_set(c, "audio_output"@, val).0.to_speaker(),
        lower(trim(val)) != "heos"@ && lower(trim(val)) != "local"@ ==> config_set(c, "audio_output"@, val).0 == c,
        trim(val) == dec(n) && (n == 8 || n == 16 || n == 32 || n == 64) ==> config_set(c, "wave_bands"@, val).0 == (ConfigV {
            wave_bands: n,
            ..c
        }),
{
    lemma_keys_differ();
    lemma_key_index();
    lemma_keys_are_lower();
    crate::nums::law_dec_reads_back(n, i32::MIN as int, i32::MAX as int);
    reveal_strlit("local");
    reveal_strlit("heos");
    assert("local"@.len() == 5 && "heos"@.len() == 4);
    reveal_strlit("8");
    reveal_strlit("16");
    reveal_strlit("32");
    reveal_strlit("64");
    reveal_with_fuel(crate::nums::dec_nat, 3);
    assert(dec(8) =~= "8"@);
    assert(dec(16) =~= "16"@);
    assert(dec(32) =~= "32"@);
    assert(dec(64) =~= "64"@);
    assert("16"@[0] == '1' && "32"@[0] == '3' && "64"@[0] == '6');
}

/// A switch is on after `on`, `yes`, `true` or `1` in any case, and off after any other word. Each
/// key switches its own.
pub proof fn law_switches(c: ConfigV, val: Seq<char>)
    ensures
        ({
            let on = lower(trim(val)) == "1"@ || lower(trim(val)) == "yes"@ || lower(trim(val)) == "true"@ || lower(trim(val))
                == "on"@;
            &&& config_set(c, "fuzzy_search"@, val).0 == (ConfigV { fuzzy_search: on, ..c })
            &&& config_set(c, "waves"@, val).0 == (ConfigV { waves: on, ..c })
            &&& config_set(c, "gapless"@, val).0 == (ConfigV { gapless: on, ..c })
            &&& config_set(c, "normalize"@, val).0 == (ConfigV { normalize: on, ..c })
            &&& config_set(c, "cache_meta"@, val).0 == (ConfigV { cache_meta: on, ..c })
            &&& config_set(c, "mouse"@, val).0 == (ConfigV { mouse: on, ..c })
            &&& config_get(config_set(c, "mouse"@, val).0, "mouse"@) == Some(
                if on {
                    "on"@
                } else {
                    "off"@
                },
            )
        }),
{
    lemma_keys_differ();
    lemma_key_index();
    lemma_keys_are_lower();
}

proof fn lemma_keys_are_lower()
    ensures
        forall|i: int| 0 <= i < config_keys().len() ==> lower(#[trigger] config_keys()[i]) == config_keys()[i],
{
    reveal_strlit("default_volume");
    reveal_strlit("library_roots");
    reveal_strlit("fuzzy_search");
    reveal_strlit("waves");
    reveal_strlit("gapless");
    reveal_strlit("normalize");
    reveal_strlit("cache_meta");
    reveal_strlit("wave_bands");
    reveal_strlit("mouse");
    reveal_strlit("audio_output");
    reveal_strlit("audio_speaker");
    lemma_key_index();
    assert(lower("default_volume"@) =~= "default_volume"@);
    assert(lower("library_roots"@) =~= "library_roots"@);
    assert(lower("fuzzy_search"@) =~= "fuzzy_search"@);
    assert(lower("waves"@) =~= "waves"@);
    assert(lower("gapless"@) =~= "gapless"@);
    assert(lower("normalize"@) =~= "normalize"@);
    assert(lower("cache_meta"@) =~= "cache_meta"@);
    assert(lower("wave_bands"@) =~= "wave_bands"@);
    assert(lower("mouse"@) =~= "mouse"@);
    assert(lower("audio_output"@) =~= "audio_output"@);
    assert(lower("audio_speaker"@) =~= "audio_speaker"@);
    let ks = config_keys();
    assert forall|i: int| 0 <= i < ks.len() implies lower(#[trigger] ks[i]) == ks[i] by {
        assert(i == 0 || i == 1 || i == 2 || i == 3 || i == 4 || i == 5 || i == 6 || i == 7 || i == 8 || i == 9 || i == 10);
    }
}

/// The library roots are set by their paths with commas between them, and read back so.
pub proof fn law_roots_are_set(c: ConfigV, roots: Seq<Seq<char>>)
    requires
        roots.len() > 0,
        forall|i: int|
            0 <= i < roots.len() ==> (#[trigger] roots[i]).len() > 0 && trim(roots[i]) == roots[i] && !roots[i].contains(','),
    ensures
        config_set(c, "library_roots"@, join(roots, seq![','])).0 == (ConfigV { library_roots: roots, ..c }),
        config_get(ConfigV { library_roots: roots, ..c }, "library_roots"@) == Some(join(roots, ", "@)),
{
    lemma_keys_differ();
    lemma_key_index();
    lemma_keys_are_lower();
    let cut = |x: char| x == ',';
    let text = join(roots, seq![',']);
    crate::text::law_join_splits(roots, ',', cut);
    let pieces = split(text, cut);
    assert(Seq::new(pieces.len(), |i: int| trim(pieces[i])) =~= roots) by {
        assert forall|i: int| 0 <= i < roots.len() implies trim(roots[i]) == roots[i] by {
            assert(roots[i].len() > 0);
        }
    }
    lemma_all_filled(roots);
}

proof fn lemma_all_filled(v: Seq<Seq<char>>)
    requires
        forall|i: int| 0 <= i < v.len() ==> (#[trigger] v[i]).len() > 0,
    ensures
        filled(v) == v,
    decreases v.len(),
{
    reveal(Seq::filter);
    if v.len() > 0 {
        let f = v.drop_last();
        assert forall|i: int| 0 <= i < f.len() implies (#[trigger] f[i]).len() > 0 by {
            assert(f[i] == v[i]);
        }
        lemma_all_filled(f);
        assert(v[v.len() - 1].len() > 0);
        assert(f.push(v.last()) =~= v);
    }
}

/// What a configuration file does not give, or gives out of range, stays as it is in a fresh
/// installation: the volume at 75, the music directory as the library, sixteen wave bands, and the
/// sound on this machine.
pub proof fn law_defaults_stay(v: JsonV)
    ensures
        v.get("default_volume"@) is None ==> config_of(v).default_volume == 75,
        v.i64_at("default_volume"@) matches Some(n) ==> config_of(v).default_volume == if 0 <= n <= 150 {
            n as int
        } else {
            75
        },
        v.get("library_roots"@) is None ==> config_of(v).library_roots == seq!["~/Music"@],
        v.i64_at("wave_bands"@) matches Some(n) ==> config_of(v).wave_bands == if n == 8 || n == 16 || n == 32 || n == 64 {
            n as int
        } else {
            16
        },
        v.get("audio_output"@) is None ==> config_of(v).audio_output == "local"@,
        v.get("audio_speaker"@) is None ==> config_of(v).audio_speaker == "Vanguarda Office"@,
        v.get("waves"@) is None ==> config_of(v).waves,
        v.get("gapless"@) is None ==> config_of(v).gapless,
        v.get("mouse"@) is None ==> config_of(v).mouse,
        v.get("fuzzy_search"@) is None ==> config_of(v).fuzzy_search,
        v.get("cache_meta"@) is None ==> config_of(v).cache_meta,
        v.get("normalize"@) is None ==> !config_of(v).normalize,
        config_loaded(""@) == ConfigV::fresh(),
{
    reveal_strlit("");
    assert(trim(""@).len() == 0);
}

} // verus!
