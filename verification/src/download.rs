//! Which files of an item are fetched, and how.

use vstd::prelude::*;
use crate::dlna::good_count;
use crate::json::{json_parsed, jsons, parse, Json, JsonV};
use crate::nums::{all_digits, dec, dec2, dec_u64, dec_usize, int_in, is_digit, parse_u64, two_digits};
use crate::paths::{join_path, join_paths};
use crate::text::{
    after_last, after_prefix, all_ascii, ascii_lower, cat2, cat3, cat4, cat5, cat7, chars_of, contains, ends, ends_with, find_char, first_n,
    first_pos, has, holds, is_alnum, is_ascii, join, joined, keep_alnum, lemma_char_pos, lemma_filter_take, lemma_lower_adds, list_has, lower,
    lowered, only_alnum, opt_str, opt_view, same, slice_of, starts, starts_with, strip_prefix, tail_after,
    take_chars, text_of, trim, trimmed, views,
};
use crate::trove::{is_cc_ident, is_ccmixter_ident};
use crate::urls::{path_text, percent, percent_encode_path, percent_encode_path_keep_slash, slash_path_text, unpercent};
use vstd::utf8::encode_utf8;

verus! {

// ---- endings ----

/// The endings of media files, those of audio files first, as they are looked for.
pub open spec fn media_ext() -> Seq<Seq<char>> {
    seq![
        "mp3"@,
        "ogg"@,
        "flac"@,
        "m4a"@,
        "wav"@,
        "opus"@,
        "mp4"@,
        "mkv"@,
        "webm"@,
        "avi"@,
        "ogv"@,
        "mov"@,
    ]
}

/// The endings of audio files, in the order of preference.
pub open spec fn format_order() -> Seq<Seq<char>> {
    seq!["mp3"@, "flac"@, "ogg"@, "m4a"@, "wav"@, "opus"@]
}

fn media_endings() -> (r: Vec<String>)
    ensures
        views(r@) == media_ext(),
        r.len() == 12,
{
    let mut r: Vec<String> = Vec::new();
    r.push("mp3".to_owned());
    r.push("ogg".to_owned());
    r.push("flac".to_owned());
    r.push("m4a".to_owned());
    r.push("wav".to_owned());
    r.push("opus".to_owned());
    r.push("mp4".to_owned());
    r.push("mkv".to_owned());
    r.push("webm".to_owned());
    r.push("avi".to_owned());
    r.push("ogv".to_owned());
    r.push("mov".to_owned());
    assert(views(r@) == media_ext());
    r
}

fn preferred_formats() -> (r: Vec<String>)
    ensures
        views(r@) == format_order(),
        r.len() == 6,
{
    let mut r: Vec<String> = Vec::new();
    r.push("mp3".to_owned());
    r.push("flac".to_owned());
    r.push("ogg".to_owned());
    r.push("m4a".to_owned());
    r.push("wav".to_owned());
    r.push("opus".to_owned());
    assert(views(r@) == format_order());
    r
}

/// The first ending, from the `i`th on, that a text in lower case has.
pub open spec fn ending_from(lo: Seq<char>, i: int) -> Option<int>
    decreases media_ext().len() - i,
{
    if i < 0 || i >= media_ext().len() {
        None
    } else if ends(lo, "."@ + media_ext()[i]) {
        Some(i)
    } else {
        ending_from(lo, i + 1)
    }
}

/// Which media ending a file name has, in any case.
pub open spec fn ending(name: Seq<char>) -> Option<int> {
    ending_from(lower(name), 0)
}

/// The media ending of a file name.
pub open spec fn ext_in(name: Seq<char>) -> Option<Seq<char>> {
    match ending(name) {
        Some(i) => Some(media_ext()[i]),
        None => None,
    }
}

/// Whether a file name has an audio ending.
pub open spec fn is_audio_name(name: Seq<char>) -> bool {
    match ending(name) {
        Some(i) => i < 6,
        None => false,
    }
}

fn find_ending(name: &str) -> (r: Option<usize>)
    ensures
        match r {
            Some(i) => ending(name@) == Some(i as int) && i < 12,
            None => ending(name@) is None,
        },
{
    let lo = lowered(name);
    let exts = media_endings();
    for i in 0..exts.len()
        invariant
            lo@ == lower(name@),
            views(exts@) == media_ext(),
            exts.len() == 12,
            ending(name@) == ending_from(lo@, i as int),
    {
        assert(views(exts@)[i as int] == exts@[i as int]@);
        if ends_with(lo.as_str(), cat2(".", exts[i].as_str()).as_str()) {
            return Some(i);
        }
    }
    None
}

/// The media ending of a file name.
pub fn ext_of(name: &str) -> (r: Option<String>)
    ensures
        opt_view(r) == ext_in(name@),
{
    match find_ending(name) {
        Some(i) => {
            let exts = media_endings();
            assert(views(exts@)[i as int] == exts@[i as int]@);
            Some(exts[i].clone())
        },
        None => None,
    }
}

fn audio_name(name: &str) -> (r: bool)
    ensures
        r == is_audio_name(name@),
{
    match find_ending(name) {
        Some(i) => i < 6,
        None => false,
    }
}

/// Whether one of the files has that audio ending.
pub open spec fn offers(names: Seq<Seq<char>>, format: Seq<char>) -> bool {
    exists|i: int| 0 <= i < names.len() && ext_in(#[trigger] names[i]) == Some(format)
}

/// The audio formats that files come in, in the order of preference.
pub open spec fn formats_of(names: Seq<Seq<char>>) -> Seq<Seq<char>> {
    format_order().filter(|f: Seq<char>| offers(names, f))
}

fn has_format(names: &Vec<String>, format: &str) -> (r: bool)
    ensures
        r == offers(views(names@), format@),
{
    for i in 0..names.len()
        invariant
            forall|j: int| 0 <= j < i ==> ext_in(#[trigger] views(names@)[j]) != Some(format@),
    {
        assert(views(names@)[i as int] == names@[i as int]@);
        match ext_of(names[i].as_str()) {
            Some(e) => {
                if same(e.as_str(), format) {
                    assert(ext_in(views(names@)[i as int]) == Some(format@));
                    return true;
                }
            },
            None => {},
        }
    }
    false
}

/// The audio formats that files come in, in the order of preference.
pub fn formats_among(names: &Vec<String>) -> (r: Vec<String>)
    ensures
        views(r@) == formats_of(views(names@)),
{
    let order = preferred_formats();
    let mut r: Vec<String> = Vec::new();
    let ghost p = |f: Seq<char>| offers(views(names@), f);
    proof {
        reveal(Seq::filter);
        assert(format_order().take(0).filter(p) == Seq::<Seq<char>>::empty());
    }
    for i in 0..order.len()
        invariant
            views(order@) == format_order(),
            order.len() == 6,
            p == (|f: Seq<char>| offers(views(names@), f)),
            views(r@) == format_order().take(i as int).filter(p),
    {
        assert(views(order@)[i as int] == order@[i as int]@);
        let ghost before = views(r@);
        if has_format(names, order[i].as_str()) {
            r.push(order[i].clone());
            assert(views(r@) == before.push(order@[i as int]@));
        }
        proof {
            lemma_filter_take(format_order(), p, i as int);
        }
    }
    assert(format_order().take(6) == format_order());
    r
}

// ---- targets ----

/// A file to fetch: from where, under which name, into which directory, and its size.
pub struct Target {
    pub url: String,
    pub name: String,
    pub dir: String,
    pub size: u64,
}

/// The model of a [`Target`].
#[verifier::ext_equal]
pub struct TargetV {
    pub url: Seq<char>,
    pub name: Seq<char>,
    pub dir: Seq<char>,
    pub size: u64,
}

impl View for Target {
    type V = TargetV;

    open spec fn view(&self) -> TargetV {
        TargetV { url: self.url@, name: self.name@, dir: self.dir@, size: self.size }
    }
}

/// The models of a list of targets.
pub open spec fn targets_view(v: Seq<Target>) -> Seq<TargetV> {
    Seq::new(v.len(), |i: int| v[i]@)
}

/// The names of a list of targets.
pub open spec fn target_names(v: Seq<TargetV>) -> Seq<Seq<char>> {
    Seq::new(v.len(), |i: int| v[i].name)
}

fn names_of(v: &Vec<Target>) -> (r: Vec<String>)
    ensures
        views(r@) == target_names(targets_view(v@)),
{
    let mut r: Vec<String> = Vec::new();
    for i in 0..v.len()
        invariant
            r.len() == i,
            forall|j: int| 0 <= j < i ==> (#[trigger] r@[j])@ == v@[j].name@,
    {
        r.push(v[i].name.clone());
    }
    assert(views(r@) == target_names(targets_view(v@)));
    r
}

/// The directories that downloads go to.
pub struct Dirs {
    pub audio: String,
    pub video: String,
}

/// Where downloads of a sort go: where the environment says, or below the home directory.
pub open spec fn dir_for(env: Option<Seq<char>>, home: Seq<char>, below: Seq<char>) -> Seq<char> {
    match env {
        Some(d) => d,
        None => join_path(home, below),
    }
}

/// Where audio downloads go, given the environment's `TROVE_AUDIO_DIR`.
pub fn audio_dir(env: Option<String>, home: &str) -> (r: String)
    ensures
        r@ == dir_for(opt_view(env), home@, "Music/trove"@),
{
    match env {
        Some(d) => d,
        None => join_paths(home, "Music/trove"),
    }
}

/// Where video downloads go, given the environment's `TROVE_VIDEO_DIR`.
pub fn video_dir(env: Option<String>, home: &str) -> (r: String)
    ensures
        r@ == dir_for(opt_view(env), home@, "Videos/trove"@),
{
    match env {
        Some(d) => d,
        None => join_paths(home, "Videos/trove"),
    }
}

/// A character that may stand in a directory's name, else `_`.
pub open spec fn safe_char(c: char) -> char {
    if is_alnum(c) || c == '.' || c == '-' || c == '_' {
        c
    } else {
        '_'
    }
}

/// An identifier as a directory's name, of at most eighty characters.
pub open spec fn sanitized(ident: Seq<char>) -> Seq<char> {
    first_n(ident.map_values(|c: char| safe_char(c)), 80)
}

/// An identifier as a directory's name.
pub fn sanitize_ident(ident: &str) -> (r: String)
    ensures
        r@ == sanitized(ident@),
{
    let v = chars_of(ident);
    let mut out: Vec<char> = Vec::new();
    for i in 0..v.len()
        invariant
            out.len() == i,
            forall|j: int| 0 <= j < i ==> out@[j] == safe_char(v@[j]),
    {
        let c = v[i];
        let keep = c.is_alphanumeric() || c == '.' || c == '-' || c == '_';
        out.push(if keep { c } else { '_' });
    }
    assert(out@ == ident@.map_values(|c: char| safe_char(c)));
    take_chars(text_of(&out).as_str(), 80)
}

/// Which format is wished, in lower case.
pub open spec fn wish(format: Option<Seq<char>>) -> Option<Seq<char>> {
    match format {
        Some(f) => Some(lower(f)),
        None => None,
    }
}

fn read_wish(format: Option<&str>) -> (r: Option<String>)
    ensures
        opt_view(r) == wish(opt_str(format)),
{
    match format {
        Some(f) => Some(lowered(f)),
        None => None,
    }
}

/// The ending of a file name, empty where it has none.
pub open spec fn ext_or_empty(name: Seq<char>) -> Seq<char> {
    match ext_in(name) {
        Some(e) => e,
        None => ""@,
    }
}

fn ext_or_none(name: &str) -> (r: String)
    ensures
        r@ == ext_or_empty(name@),
{
    match ext_of(name) {
        Some(e) => e,
        None => "".to_owned(),
    }
}

fn size_at(v: &Json, key: &str) -> (n: u64)
    ensures
        n == size_in(v@, key@),
{
    match v.u64_at(key) {
        Some(n) => n,
        None => 0,
    }
}

/// The size that a file's description gives, else zero.
pub open spec fn size_in(v: JsonV, key: Seq<char>) -> u64 {
    match v.u64_at(key) {
        Some(n) => n,
        None => 0,
    }
}

// ---- ccMixter ----

/// The target that a file of ccMixter makes: it has a name and an address, and is of the
/// wished format; without a wish, it is an audio file.
pub open spec fn cc_target(f: JsonV, want: Option<Seq<char>>, dir: Seq<char>) -> Option<TargetV> {
    let name = f.str_or("file_name"@, ""@);
    let url = f.str_or("download_url"@, ""@);
    let fits = match want {
        Some(w) => w == "all"@ || ext_or_empty(name) == w,
        None => is_audio_name(name),
    };
    if name.len() == 0 || url.len() == 0 || !fits {
        None
    } else {
        Some(TargetV { url, name: after_last(name, '/'), dir, size: size_in(f, "file_rawsize"@) })
    }
}

/// The targets that the files make.
pub open spec fn cc_targets(files: Seq<JsonV>, want: Option<Seq<char>>, dir: Seq<char>) -> Seq<TargetV>
    decreases files.len(),
{
    if files.len() == 0 {
        Seq::empty()
    } else {
        match cc_target(files.last(), want, dir) {
            Some(t) => cc_targets(files.drop_last(), want, dir).push(t),
            None => cc_targets(files.drop_last(), want, dir),
        }
    }
}

/// At most the first forty.
pub open spec fn first_forty(v: Seq<TargetV>) -> Seq<TargetV> {
    if v.len() <= 40 {
        v
    } else {
        v.take(40)
    }
}

/// The number of a ccMixter identifier.
pub open spec fn cc_number(ident: Seq<char>) -> Seq<char> {
    match after_prefix(ident, "ccmixter:"@) {
        Some(id) => id,
        None => ident,
    }
}

/// The targets of a ccMixter item, from the text that came back, or what is wrong.
pub open spec fn cc_picked(
    ident: Seq<char>,
    format: Option<Seq<char>>,
    text: Seq<char>,
    audio: Seq<char>,
) -> Result<Seq<TargetV>, Seq<char>> {
    let id = cc_number(ident);
    match json_parsed(text) {
        Err(e) => Err("json: "@ + e),
        Ok(v) => if v.items().len() == 0 {
            Err("ccmixter item not found: "@ + id)
        } else {
            Ok(
                first_forty(
                    cc_targets(
                        v.items()[0].items_at("files"@),
                        wish(format),
                        join_path(audio, sanitized("ccmixter-"@ + id)),
                    ),
                ),
            )
        },
    }
}

fn read_cc_number(ident: &str) -> (r: String)
    ensures
        r@ == cc_number(ident@),
{
    match strip_prefix(ident, "ccmixter:") {
        Some(id) => id,
        None => ident.to_owned(),
    }
}

/// The address at which a ccMixter item is described.
pub fn cc_item_url(ident: &str) -> (s: String)
    ensures
        s@ == "https://ccmixter.org/api/query?f=json&ids="@ + cc_number(ident@),
{
    cat2("https://ccmixter.org/api/query?f=json&ids=", read_cc_number(ident).as_str())
}

fn read_cc_target(f: &Json, want: &Option<String>, dir: &str) -> (r: Option<Target>)
    ensures
        match r {
            Some(t) => cc_target(f@, opt_view(*want), dir@) == Some(t@),
            None => cc_target(f@, opt_view(*want), dir@) is None,
        },
{
    let name = f.str_or("file_name", "");
    let url = f.str_or("download_url", "");
    let fits = match want {
        Some(w) => same(w.as_str(), "all") || same(ext_or_none(name.as_str()).as_str(), w.as_str()),
        None => audio_name(name.as_str()),
    };
    if name.as_str().is_empty() || url.as_str().is_empty() || !fits {
        return None;
    }
    Some(
        Target {
            url,
            name: tail_after(name.as_str(), '/'),
            dir: dir.to_owned(),
            size: size_at(f, "file_rawsize"),
        },
    )
}

proof fn lemma_cc_targets_grow(files: Seq<JsonV>, want: Option<Seq<char>>, dir: Seq<char>, i: int)
    requires
        0 <= i <= files.len(),
    ensures
        cc_targets(files.take(i), want, dir).len() <= cc_targets(files, want, dir).len(),
        cc_targets(files, want, dir).take(cc_targets(files.take(i), want, dir).len() as int) == cc_targets(
            files.take(i),
            want,
            dir,
        ),
    decreases files.len(),
{
    if i < files.len() {
        let front = files.drop_last();
        lemma_cc_targets_grow(front, want, dir, i);
        assert(front.take(i) == files.take(i));
        let a = cc_targets(files.take(i), want, dir);
        let b = cc_targets(front, want, dir);
        let c = cc_targets(files, want, dir);
        assert(c.take(a.len() as int) == b.take(a.len() as int));
    } else {
        assert(files.take(i) == files);
        assert(cc_targets(files, want, dir).take(cc_targets(files, want, dir).len() as int) == cc_targets(
            files,
            want,
            dir,
        ));
    }
}

fn push_target(v: &mut Vec<Target>, t: Target)
    ensures
        targets_view(final(v)@) == targets_view(old(v)@).push(t@),
        final(v).len() == old(v).len() + 1,
{
    v.push(t);
    assert(targets_view(v@) == targets_view(old(v)@).push(t@));
}

fn cc_targets_of(files: &Vec<Json>, want: &Option<String>, dir: &str) -> (r: Vec<Target>)
    ensures
        targets_view(r@) == first_forty(cc_targets(jsons(files@), opt_view(*want), dir@)),
{
    let mut r: Vec<Target> = Vec::new();
    let ghost all = jsons(files@);
    let ghost w = opt_view(*want);
    assert(targets_view(r@) == cc_targets(all.take(0), w, dir@));
    for i in 0..files.len()
        invariant
            all == jsons(files@),
            w == opt_view(*want),
            r.len() < 40,
            targets_view(r@) == cc_targets(all.take(i as int), w, dir@),
    {
        proof {
            assert(all.take(i + 1).drop_last() == all.take(i as int));
            assert(all.take(i + 1).last() == files@[i as int]@);
        }
        match read_cc_target(&files[i], want, dir) {
            Some(t) => {
                push_target(&mut r, t);
                if r.len() >= 40 {
                    proof {
                        lemma_cc_targets_grow(all, w, dir@, i + 1);
                        assert(targets_view(r@).len() == 40);
                        let whole = cc_targets(all, w, dir@);
                        assert(whole.take(40) == targets_view(r@));
                        if whole.len() == 40 {
                            assert(whole.take(40) == whole);
                        }
                    }
                    return r;
                }
            },
            None => {},
        }
    }
    assert(all.take(files.len() as int) == all);
    assert(targets_view(r@).len() == r.len());
    r
}

fn no_targets() -> (r: Vec<Target>)
    ensures
        targets_view(r@) == Seq::<TargetV>::empty(),
{
    let r: Vec<Target> = Vec::new();
    assert(targets_view(r@) == Seq::<TargetV>::empty());
    r
}

/// Whether a result of targets is the one meant.
pub open spec fn is_picked(r: Result<Vec<Target>, String>, want: Result<Seq<TargetV>, Seq<char>>) -> bool {
    match r {
        Ok(v) => want is Ok && targets_view(v@) == want->Ok_0,
        Err(e) => want is Err && e@ == want->Err_0,
    }
}

/// The targets of a ccMixter item, from the text that came back.
pub fn pick_ccmixter_targets(ident: &str, format: Option<&str>, text: &str, audio: &str) -> (r: Result<Vec<Target>, String>)
    ensures
        is_picked(r, cc_picked(ident@, opt_str(format), text@, audio@)),
{
    let id = read_cc_number(ident);
    let v = match parse(text) {
        Ok(v) => v,
        Err(e) => {
            return Err(cat2("json: ", e.as_str()));
        },
    };
    let not_found = cat2("ccmixter item not found: ", id.as_str());
    match v.as_arr() {
        Some(a) => {
            assert(jsons(a@).len() == a.len());
            if a.len() == 0 {
                return Err(not_found);
            }
            assert(jsons(a@)[0] == a@[0]@);
            let dir = join_paths(audio, sanitize_ident(cat2("ccmixter-", id.as_str()).as_str()).as_str());
            let want = read_wish(format);
            match a[0].arr_at("files") {
                Some(files) => Ok(cc_targets_of(files, &want, dir.as_str())),
                None => {
                    assert(cc_targets(Seq::<JsonV>::empty(), opt_view(want), dir@) == Seq::<TargetV>::empty());
                    Ok(no_targets())
                },
            }
        },
        None => Err(not_found),
    }
}

// ---- the archive ----

/// The files of an item whose names have a media ending.
pub open spec fn media_files(files: Seq<JsonV>) -> Seq<JsonV> {
    files.filter(|f: JsonV| is_media(f))
}

/// Whether a file's name has a media ending.
pub open spec fn is_media(f: JsonV) -> bool {
    match f.str_at("name"@) {
        Some(n) => ending(n) is Some,
        None => false,
    }
}

/// Whether any of the files is an audio file.
pub open spec fn any_audio(media: Seq<JsonV>) -> bool {
    exists|i: int| 0 <= i < media.len() && is_audio_name((#[trigger] media[i]).str_or("name"@, ""@))
}

/// A text up to its first dot.
pub open spec fn before_dot(s: Seq<char>) -> Seq<char> {
    match first_pos(s, '.') {
        Some(i) => s.take(i),
        None => s,
    }
}

/// How many digits stand at the end of a text.
pub open spec fn digits_at_end(s: Seq<char>) -> nat
    decreases s.len(),
{
    if s.len() > 0 && is_digit(s.last()) {
        1 + digits_at_end(s.drop_last())
    } else {
        0
    }
}

/// How many characters of a text's end are a tag of its bit rate: `vbr`, or digits with `kb`
/// or `k` behind them.
pub open spec fn rate_len(s: Seq<char>) -> int {
    let unit: int = if ends(s, "kb"@) {
        2
    } else if ends(s, "k"@) {
        1
    } else {
        0
    };
    let digits = digits_at_end(s.take(s.len() - unit));
    if ends(s, "vbr"@) {
        3
    } else if unit > 0 && digits > 0 {
        digits + unit
    } else {
        0
    }
}

/// What a song's versions share: the file name up to its first dot, in lower case, without a
/// tag of its bit rate at its end, reduced to letters and digits. The tag is cut first, so
/// that digits of the name do not run into it.
pub open spec fn song_stem(name: Seq<char>) -> Seq<char> {
    let s = lower(before_dot(after_last(name, '/')));
    only_alnum(s.take(s.len() - rate_len(s)))
}

/// The target that a file of the archive makes.
pub open spec fn archive_target(ident: Seq<char>, f: JsonV, dir: Seq<char>) -> TargetV {
    let name = f.str_or("name"@, ""@);
    TargetV {
        url: "https://archive.org/download/"@ + path_text(ident) + "/"@ + slash_path_text(name),
        name: after_last(name, '/'),
        dir,
        size: size_in(f, "size"@),
    }
}

/// The targets that the files make, and the songs that are among them. Where a format is
/// wished, only files of it are taken, and of each song only the first.
pub open spec fn chosen(
    ident: Seq<char>,
    media: Seq<JsonV>,
    want: Option<Seq<char>>,
    dir: Seq<char>,
) -> (Seq<TargetV>, Seq<Seq<char>>)
    decreases media.len(),
{
    if media.len() == 0 {
        (Seq::empty(), Seq::empty())
    } else {
        let (ts, stems) = chosen(ident, media.drop_last(), want, dir);
        let f = media.last();
        let name = f.str_or("name"@, ""@);
        let t = archive_target(ident, f, dir);
        if want is Some && want->0 != "all"@ {
            if ext_or_empty(name) != want->0 || holds(stems, song_stem(name)) {
                (ts, stems)
            } else {
                (ts.push(t), stems.push(song_stem(name)))
            }
        } else {
            (ts.push(t), stems)
        }
    }
}

/// At most the first `n`.
pub open spec fn at_most(v: Seq<JsonV>, n: int) -> Seq<JsonV> {
    if v.len() <= n {
        v
    } else {
        v.take(n)
    }
}

/// Whether an item is a video: by its media type, or because it has no audio file.
pub open spec fn is_video_item(mediatype: Seq<char>, meta: JsonV) -> bool {
    let mt = if mediatype.len() == 0 {
        lower(meta.str_or("mediatype"@, ""@))
    } else {
        lower(mediatype)
    };
    starts(mt, "movie"@) || !any_audio(media_files(meta.items_at("files"@)))
}

/// The targets of an item of the archive: of a video its first file, of an audio item its
/// first forty.
pub open spec fn archive_targets(
    ident: Seq<char>,
    mediatype: Seq<char>,
    format: Option<Seq<char>>,
    meta: JsonV,
    audio: Seq<char>,
    video: Seq<char>,
) -> Seq<TargetV> {
    let media = media_files(meta.items_at("files"@));
    if is_video_item(mediatype, meta) {
        chosen(ident, at_most(media, 1), wish(format), join_path(video, sanitized(ident))).0
    } else {
        chosen(ident, at_most(media, 40), wish(format), join_path(audio, sanitized(ident))).0
    }
}

/// The targets of an item, from the text that came back, or what is wrong.
pub open spec fn picked(
    ident: Seq<char>,
    mediatype: Seq<char>,
    format: Option<Seq<char>>,
    text: Seq<char>,
    audio: Seq<char>,
    video: Seq<char>,
) -> Result<Seq<TargetV>, Seq<char>> {
    if is_cc_ident(ident) {
        cc_picked(ident, format, text, audio)
    } else {
        match json_parsed(text) {
            Err(e) => Err("json: "@ + e),
            Ok(meta) => Ok(archive_targets(ident, mediatype, format, meta, audio, video)),
        }
    }
}

/// The address at which an item is described.
pub open spec fn meta_address(ident: Seq<char>) -> Seq<char> {
    if is_cc_ident(ident) {
        "https://ccmixter.org/api/query?f=json&ids="@ + cc_number(ident)
    } else {
        "https://archive.org/metadata/"@ + path_text(ident)
    }
}

/// The address at which an item is described.
pub fn item_meta(ident: &str) -> (s: String)
    ensures
        s@ == meta_address(ident@),
{
    if is_ccmixter_ident(ident) {
        cc_item_url(ident)
    } else {
        cat2("https://archive.org/metadata/", percent_encode_path(ident).as_str())
    }
}

fn count_digits(v: &Vec<char>, end: usize) -> (n: usize)
    requires
        end <= v.len(),
    ensures
        n == digits_at_end(v@.take(end as int)),
        n <= end,
{
    let mut n: usize = 0;
    let ghost s = v@.take(end as int);
    assert(s.take(end as int) == s);
    while n < end && '0' <= v[end - n - 1] && v[end - n - 1] <= '9'
        invariant
            n <= end <= v.len(),
            s == v@.take(end as int),
            digits_at_end(s) == n + digits_at_end(s.take(end - n)),
        ensures
            digits_at_end(s.take(end - n)) == 0,
        decreases end - n,
    {
        proof {
            assert(s.take(end - n).drop_last() == s.take(end - n - 1));
            assert(s.take(end - n).last() == v@[end - n - 1]);
        }
        n = n + 1;
    }
    n
}

fn rate_len_of(s: &str) -> (n: usize)
    ensures
        n == rate_len(s@),
        n <= s@.len(),
{
    proof {
        reveal_strlit("vbr");
        reveal_strlit("kb");
        reveal_strlit("k");
    }
    if ends_with(s, "vbr") {
        return 3;
    }
    let v = chars_of(s);
    let unit: usize = if ends_with(s, "kb") {
        2
    } else if ends_with(s, "k") {
        1
    } else {
        0
    };
    let digits: usize = count_digits(&v, v.len() - unit);
    if unit > 0 && digits > 0 {
        digits + unit
    } else {
        0
    }
}

fn read_song_stem(name: &str) -> (r: String)
    ensures
        r@ == song_stem(name@),
{
    let base = tail_after(name, '/');
    let v = chars_of(base.as_str());
    let head = match find_char(&v, '.') {
        Some(i) => slice_of(&v, 0, i),
        None => base,
    };
    assert(head@ == before_dot(after_last(name@, '/'))) by {
        crate::text::lemma_char_pos(v@, '.');
        if let Some(i) = first_pos(v@, '.') {
            assert(v@.subrange(0, i) == v@.take(i));
        }
    }
    let low = lowered(head.as_str());
    let w = chars_of(low.as_str());
    let n: usize = w.len() - rate_len_of(low.as_str());
    let cut = slice_of(&w, 0, n);
    assert(cut@ == low@.take(n as int));
    keep_alnum(cut.as_str())
}

fn media_of(files: &Vec<Json>) -> (r: Vec<Json>)
    ensures
        jsons(r@) == media_files(jsons(files@)),
{
    let mut r: Vec<Json> = Vec::new();
    let ghost all = jsons(files@);
    let ghost p = |f: JsonV| is_media(f);
    proof {
        reveal(Seq::filter);
        assert(all.take(0).filter(p) == Seq::<JsonV>::empty());
        assert(jsons(r@) == Seq::<JsonV>::empty());
    }
    for i in 0..files.len()
        invariant
            all == jsons(files@),
            p == (|f: JsonV| is_media(f)),
            jsons(r@) == all.take(i as int).filter(p),
    {
        let ghost before = jsons(r@);
        let media = match files[i].str_at("name") {
            Some(n) => find_ending(n).is_some(),
            None => false,
        };
        if media {
            r.push(files[i].copy());
            assert(jsons(r@) == before.push(files@[i as int]@));
        }
        proof {
            lemma_filter_take(all, p, i as int);
        }
    }
    assert(all.take(files.len() as int) == all);
    r
}

fn has_audio(media: &Vec<Json>) -> (r: bool)
    ensures
        r == any_audio(jsons(media@)),
{
    for i in 0..media.len()
        invariant
            forall|j: int| 0 <= j < i ==> !is_audio_name((#[trigger] jsons(media@)[j]).str_or("name"@, ""@)),
    {
        if audio_name(media[i].str_or("name", "").as_str()) {
            assert(is_audio_name(jsons(media@)[i as int].str_or("name"@, ""@)));
            return true;
        }
        assert(!is_audio_name(jsons(media@)[i as int].str_or("name"@, ""@)));
    }
    false
}

fn choose_targets(ident: &str, media: &Vec<Json>, want: &Option<String>, dir: &str) -> (r: Vec<Target>)
    ensures
        targets_view(r@) == chosen(ident@, jsons(media@), opt_view(*want), dir@).0,
{
    let mut r = no_targets();
    let mut stems: Vec<String> = Vec::new();
    let ghost all = jsons(media@);
    let ghost w = opt_view(*want);
    proof {
        assert(all.take(0) == Seq::<JsonV>::empty());
        assert(views(stems@) == Seq::<Seq<char>>::empty());
    }
    for i in 0..media.len()
        invariant
            all == jsons(media@),
            w == opt_view(*want),
            (targets_view(r@), views(stems@)) == chosen(ident@, all.take(i as int), w, dir@),
    {
        proof {
            assert(all.take(i + 1).drop_last() == all.take(i as int));
            assert(all.take(i + 1).last() == media@[i as int]@);
        }
        let f = &media[i];
        let name = f.str_or("name", "");
        let t = Target {
            url: cat4(
                "https://archive.org/download/",
                percent_encode_path(ident).as_str(),
                "/",
                percent_encode_path_keep_slash(name.as_str()).as_str(),
            ),
            name: tail_after(name.as_str(), '/'),
            dir: dir.to_owned(),
            size: size_at(f, "size"),
        };
        let ghost before = views(stems@);
        match want {
            Some(x) => {
                if same(x.as_str(), "all") {
                    push_target(&mut r, t);
                } else if same(ext_or_none(name.as_str()).as_str(), x.as_str()) {
                    let stem = read_song_stem(name.as_str());
                    if !list_has(&stems, stem.as_str()) {
                        stems.push(stem);
                        assert(views(stems@) == before.push(stem@));
                        push_target(&mut r, t);
                    }
                }
            },
            None => {
                push_target(&mut r, t);
            },
        }
    }
    assert(all.take(media.len() as int) == all);
    r
}

fn shorten(v: Vec<Json>, n: usize) -> (r: Vec<Json>)
    ensures
        jsons(r@) == at_most(jsons(v@), n as int),
{
    let mut v = v;
    let ghost all = jsons(v@);
    assert(all.len() == v.len());
    if v.len() > n {
        v.truncate(n);
    }
    assert(jsons(v@) == at_most(all, n as int));
    v
}

fn archive_targets_of(ident: &str, mediatype: &str, format: Option<&str>, meta: &Json, dirs: &Dirs) -> (r: Vec<Target>)
    ensures
        targets_view(r@) == archive_targets(
            ident@,
            mediatype@,
            opt_str(format),
            meta@,
            dirs.audio@,
            dirs.video@,
        ),
{
    let media = match meta.arr_at("files") {
        Some(files) => media_of(files),
        None => {
            let none: Vec<Json> = Vec::new();
            proof {
                reveal(Seq::filter);
                assert(jsons(none@) == media_files(Seq::<JsonV>::empty()));
            }
            none
        },
    };
    let mt = if mediatype.is_empty() {
        lowered(meta.str_or("mediatype", "").as_str())
    } else {
        lowered(mediatype)
    };
    let want = read_wish(format);
    if starts_with(mt.as_str(), "movie") || !has_audio(&media) {
        let dir = join_paths(dirs.video.as_str(), sanitize_ident(ident).as_str());
        choose_targets(ident, &shorten(media, 1), &want, dir.as_str())
    } else {
        let dir = join_paths(dirs.audio.as_str(), sanitize_ident(ident).as_str());
        choose_targets(ident, &shorten(media, 40), &want, dir.as_str())
    }
}

/// The targets of an item, from the text that came back: `format` keeps one file of that
/// ending per song, `all` or none keeps everything.
pub fn pick_targets(ident: &str, mediatype: &str, format: Option<&str>, text: &str, dirs: &Dirs) -> (r: Result<
    Vec<Target>,
    String,
>)
    ensures
        is_picked(r, picked(ident@, mediatype@, opt_str(format), text@, dirs.audio@, dirs.video@)),
{
    if is_ccmixter_ident(ident) {
        return pick_ccmixter_targets(ident, format, text, dirs.audio.as_str());
    }
    match parse(text) {
        Ok(meta) => Ok(archive_targets_of(ident, mediatype, format, &meta, dirs)),
        Err(e) => Err(cat2("json: ", e.as_str())),
    }
}

/// The names of the files that are described.
pub open spec fn file_names(files: Seq<JsonV>) -> Seq<Seq<char>>
    decreases files.len(),
{
    if files.len() == 0 {
        Seq::empty()
    } else {
        match files.last().str_at("name"@) {
            Some(n) => file_names(files.drop_last()).push(n),
            None => file_names(files.drop_last()),
        }
    }
}

fn file_names_of(files: &Vec<Json>) -> (r: Vec<String>)
    ensures
        views(r@) == file_names(jsons(files@)),
{
    let mut r: Vec<String> = Vec::new();
    let ghost all = jsons(files@);
    assert(views(r@) == file_names(all.take(0)));
    for i in 0..files.len()
        invariant
            all == jsons(files@),
            views(r@) == file_names(all.take(i as int)),
    {
        proof {
            assert(all.take(i + 1).drop_last() == all.take(i as int));
            assert(all.take(i + 1).last() == files@[i as int]@);
        }
        let ghost before = views(r@);
        match files[i].str_at("name") {
            Some(n) => {
                r.push(n.to_owned());
                assert(views(r@) == before.push(n@));
            },
            None => {},
        }
    }
    assert(all.take(files.len() as int) == all);
    r
}

/// The audio formats that an item offers, from the text that came back, or what is wrong.
pub open spec fn item_formats(ident: Seq<char>, text: Seq<char>, audio: Seq<char>) -> Result<Seq<Seq<char>>, Seq<char>> {
    if is_cc_ident(ident) {
        match cc_picked(ident, None, text, audio) {
            Ok(ts) => Ok(formats_of(target_names(ts))),
            Err(e) => Err(e),
        }
    } else {
        match json_parsed(text) {
            Err(e) => Err("json: "@ + e),
            Ok(meta) => Ok(formats_of(file_names(meta.items_at("files"@)))),
        }
    }
}

/// Whether a result of texts is the one meant.
pub open spec fn is_texts(r: Result<Vec<String>, String>, want: Result<Seq<Seq<char>>, Seq<char>>) -> bool {
    match r {
        Ok(v) => want is Ok && views(v@) == want->Ok_0,
        Err(e) => want is Err && e@ == want->Err_0,
    }
}

/// The audio formats that an item offers, in the order of preference.
pub fn available_formats(ident: &str, text: &str, dirs: &Dirs) -> (r: Result<Vec<String>, String>)
    ensures
        is_texts(r, item_formats(ident@, text@, dirs.audio@)),
{
    if is_ccmixter_ident(ident) {
        return match pick_ccmixter_targets(ident, None, text, dirs.audio.as_str()) {
            Ok(ts) => Ok(formats_among(&names_of(&ts))),
            Err(e) => Err(e),
        };
    }
    match parse(text) {
        Ok(meta) => {
            match meta.arr_at("files") {
                Some(files) => Ok(formats_among(&file_names_of(files))),
                None => {
                    let none: Vec<String> = Vec::new();
                    assert(views(none@) == file_names(Seq::<JsonV>::empty()));
                    Ok(formats_among(&none))
                },
            }
        },
        Err(e) => Err(cat2("json: ", e.as_str())),
    }
}

/// Everything that an item offers, and the formats of it.
pub fn plan_download(ident: &str, mediatype: &str, text: &str, dirs: &Dirs) -> (r: Result<
    (Vec<Target>, Vec<String>),
    String,
>)
    ensures
        match r {
            Ok((ts, fmts)) => {
                let want = picked(ident@, mediatype@, None, text@, dirs.audio@, dirs.video@);
                &&& want is Ok
                &&& targets_view(ts@) == want->Ok_0
                &&& views(fmts@) == formats_of(target_names(want->Ok_0))
            },
            Err(e) => {
                let want = picked(ident@, mediatype@, None, text@, dirs.audio@, dirs.video@);
                want is Err && e@ == want->Err_0
            },
        },
{
    match pick_targets(ident, mediatype, None, text, dirs) {
        Ok(ts) => {
            let fmts = formats_among(&names_of(&ts));
            Ok((ts, fmts))
        },
        Err(e) => Err(e),
    }
}

// ---- sizes ----

/// `n / d` to the nearest whole number; of two that are as near, the even one.
pub open spec fn half_even(n: int, d: int) -> int {
    let q = n / d;
    let r = n % d;
    if 2 * r > d || (2 * r == d && q % 2 == 1) {
        q + 1
    } else {
        q
    }
}

/// The step between the floating-point numbers next to `n`, where it is more than one.
pub open spec fn float_step(n: int) -> int
    decreases n,
{
    if n < 0x20_0000_0000_0000 {
        1
    } else {
        2 * float_step(n / 2)
    }
}

/// `n` as a floating-point number holds it.
pub open spec fn float_value(n: int) -> int {
    half_even(n, float_step(n)) * float_step(n)
}

/// A size in the largest unit that it fills: bytes, kilobytes, megabytes to one place,
/// gigabytes to two.
pub open spec fn size_text(n: u64) -> Seq<char> {
    if n < 1024 {
        dec(n as int) + " B"@
    } else if n < 1024 * 1024 {
        dec(half_even(n as int, 1024)) + " KB"@
    } else if n < 1024 * 1024 * 1024 {
        let tenths = half_even(10 * n, 0x10_0000);
        dec(tenths / 10) + "."@ + dec(tenths % 10) + " MB"@
    } else {
        let hundredths = half_even(100 * float_value(n as int), 0x4000_0000);
        dec(hundredths / 100) + "."@ + two_digits(hundredths % 100) + " GB"@
    }
}

fn divide_half_even(n: u128, d: u128) -> (r: u128)
    requires
        0 < d <= 0x4000_0000,
        n < 0x1_0000_0000_0000_0000_0000_0000,
    ensures
        r == half_even(n as int, d as int),
        r <= n / d + 1,
{
    let q: u128 = n / d;
    let r: u128 = n % d;
    assert(q <= n) by (nonlinear_arith)
        requires
            q == n / d,
            d > 0,
    ;
    if 2 * r > d || (2 * r == d && q % 2 == 1) {
        q + 1
    } else {
        q
    }
}

proof fn lemma_float_step(n: int, step: int, k: nat)
    requires
        step == pow2_of(k),
        0 <= n,
        n / step < 0x20_0000_0000_0000,
        k == 0 || n / (step / 2) >= 0x20_0000_0000_0000,
    ensures
        float_step(n) == step,
    decreases k,
{
    if k == 0 {
        assert(n / 1 == n);
    } else {
        let half = pow2_of((k - 1) as nat);
        assert(step == 2 * half);
        lemma_pow2_positive((k - 1) as nat);
        assert(step / 2 == half);
        vstd::arithmetic::div_mod::lemma_div_denominator(n, 2, half);
        assert((n / 2) / half == n / step);
        if k > 1 {
            let quarter = pow2_of((k - 2) as nat);
            lemma_pow2_positive((k - 2) as nat);
            assert(half == 2 * quarter);
            assert(half / 2 == quarter);
            vstd::arithmetic::div_mod::lemma_div_denominator(n, 2, quarter);
            assert((n / 2) / (half / 2) == n / half);
        }
        lemma_float_step(n / 2, half, (k - 1) as nat);
        assert(n >= 0x20_0000_0000_0000) by {
            vstd::arithmetic::div_mod::lemma_div_is_ordered_by_denominator(n, 1, half);
            assert(n / 1 == n);
        }
    }
}

/// Two to the power `k`.
spec fn pow2_of(k: nat) -> int
    decreases k,
{
    if k == 0 {
        1
    } else {
        2 * pow2_of((k - 1) as nat)
    }
}

proof fn lemma_pow2_positive(k: nat)
    ensures
        pow2_of(k) > 0,
    decreases k,
{
    if k > 0 {
        lemma_pow2_positive((k - 1) as nat);
    }
}

fn as_float(n: u64) -> (r: u128)
    ensures
        r == float_value(n as int),
        r <= 2 * (n as u128) + 2,
{
    let mut step: u64 = 1;
    let ghost mut k: nat = 0;
    assert(n / 1 == n);
    while n / step >= 0x20_0000_0000_0000
        invariant
            step == pow2_of(k),
            1 <= step <= 0x1000,
            k == 0 || n / ((step / 2) as u64) >= 0x20_0000_0000_0000,
            k > 0 ==> step >= 2,
        decreases 0x2000 - step,
    {
        assert(step <= 0x800) by (nonlinear_arith)
            requires
                n / step >= 0x20_0000_0000_0000,
                step >= 1,
        ;
        let ghost prev = step;
        step = step * 2;
        proof {
            k = k + 1;
            assert(step / 2 == prev);
        }
    }
    proof {
        lemma_float_step(n as int, step as int, k);
    }
    let q: u64 = n / step;
    let r: u64 = n % step;
    let up: bool = 2 * r > step || (2 * r == step && q % 2 == 1);
    let q: u128 = if up {
        q as u128 + 1
    } else {
        q as u128
    };
    proof {
        assert(q == half_even(n as int, step as int));
        assert((n / step) * step <= n) by (nonlinear_arith)
            requires
                step >= 1,
        ;
        assert(q * step <= n + step && (step > 1 ==> step <= n)) by (nonlinear_arith)
            requires
                q <= n / step + 1,
                (n / step) * step <= n,
                step >= 1,
                step <= 0x1000,
                step > 1 ==> n / ((step / 2) as u64) >= 0x20_0000_0000_0000,
        {
            if step > 1 {
                assert(n / ((step / 2) as u64) <= n);
            }
        }
    }
    q * (step as u128)
}

/// A size for display.
pub fn fmt_size(n: u64) -> (r: String)
    ensures
        r@ == size_text(n),
{
    if n < 1024 {
        cat2(dec_u64(n).as_str(), " B")
    } else if n < 1024 * 1024 {
        let k: u128 = divide_half_even(n as u128, 1024);
        cat2(dec_u64(k as u64).as_str(), " KB")
    } else if n < 1024 * 1024 * 1024 {
        let tenths: u128 = divide_half_even(n as u128 * 10, 1024 * 1024);
        cat4(dec_u64((tenths / 10) as u64).as_str(), ".", dec_u64((tenths % 10) as u64).as_str(), " MB")
    } else {
        let hundredths: u128 = divide_half_even(as_float(n) * 100, 1024 * 1024 * 1024);
        cat4(dec_u64((hundredths / 100) as u64).as_str(), ".", dec2((hundredths % 100) as u64).as_str(), " GB")
    }
}

// ---- before a download ----

/// The size of all targets together.
pub open spec fn total_size(v: Seq<TargetV>) -> nat
    decreases v.len(),
{
    if v.len() == 0 {
        0
    } else {
        total_size(v.drop_last()) + v.last().size as nat
    }
}

proof fn lemma_total_grows(v: Seq<TargetV>, i: int)
    requires
        0 <= i <= v.len(),
    ensures
        total_size(v.take(i)) <= total_size(v),
    decreases v.len(),
{
    if i < v.len() {
        lemma_total_grows(v.drop_last(), i);
        assert(v.drop_last().take(i) == v.take(i));
    } else {
        assert(v.take(i) == v);
    }
}

fn sum_sizes(v: &Vec<Target>) -> (n: u64)
    requires
        total_size(targets_view(v@)) <= u64::MAX,
    ensures
        n == total_size(targets_view(v@)),
{
    let mut n: u64 = 0;
    let ghost all = targets_view(v@);
    assert(all.take(0) == Seq::<TargetV>::empty());
    for i in 0..v.len()
        invariant
            all == targets_view(v@),
            total_size(all) <= u64::MAX,
            n == total_size(all.take(i as int)),
    {
        proof {
            assert(all.take(i + 1).drop_last() == all.take(i as int));
            assert(all.take(i + 1).last() == v@[i as int]@);
            lemma_total_grows(all, i + 1);
        }
        n = n + v[i].size;
    }
    assert(all.take(v.len() as int) == all);
    n
}

/// The limit on a download, from the environment's `TROVE_MAX_TOTAL`; zero for none.
pub open spec fn size_cap(env: Option<Seq<char>>) -> int {
    match env {
        Some(v) => match int_in(v, 0, u64::MAX as int) {
            Some(n) => n,
            None => 0,
        },
        None => 0,
    }
}

/// The limit on a download, from the environment's `TROVE_MAX_TOTAL`; zero for none.
pub fn max_total(env: Option<&str>) -> (n: u64)
    ensures
        n == size_cap(opt_str(env)),
{
    match env {
        Some(v) => match parse_u64(v) {
            Some(n) => n,
            None => 0,
        },
        None => 0,
    }
}

/// Whether the environment's `TROVE_NO_CONFIRM` says that nothing is to be asked.
pub fn no_confirm(env: &str) -> (b: bool)
    ensures
        b == crate::config::is_yes(env@),
{
    same(env, "1") || same(env, "yes") || same(env, "true") || same(env, "on")
}

/// Whether a download goes ahead.
pub enum Clearance {
    /// It does.
    Go,
    /// It does where this question is answered with yes.
    Ask(String),
    /// It does not, for this reason.
    Refused(String),
}

/// The model of a [`Clearance`].
#[verifier::ext_equal]
pub enum ClearanceV {
    Go,
    Ask(Seq<char>),
    Refused(Seq<char>),
}

impl View for Clearance {
    type V = ClearanceV;

    open spec fn view(&self) -> ClearanceV {
        match self {
            Clearance::Go => ClearanceV::Go,
            Clearance::Ask(q) => ClearanceV::Ask(q@),
            Clearance::Refused(e) => ClearanceV::Refused(e@),
        }
    }
}

/// Whether a download goes ahead: not without files, nor beyond the limit; several files or
/// more than 32 megabytes are asked for, unless consent is given.
pub open spec fn cleared(ident: Seq<char>, targets: Seq<TargetV>, cap: u64, assume_yes: bool) -> ClearanceV {
    let total = total_size(targets) as u64;
    if targets.len() == 0 {
        ClearanceV::Refused(
            "No audio/video files found (metadata only?). Browse: https://archive.org/details/"@ + ident,
        )
    } else if cap > 0 && total > cap {
        ClearanceV::Refused("refusing: "@ + size_text(total) + " exceeds TROVE_MAX_TOTAL="@ + size_text(cap))
    } else if !assume_yes && (targets.len() > 1 || total > 33554432) {
        ClearanceV::Ask(
            "Download "@ + dec(targets.len() as int) + " file(s) · "@ + size_text(total) + " → "@ + targets[0].dir + "?"@,
        )
    } else {
        ClearanceV::Go
    }
}

/// Whether a download goes ahead.
fn clearance(ident: &str, targets: &Vec<Target>, cap: u64, assume_yes: bool) -> (r: Clearance)
    requires
        total_size(targets_view(targets@)) <= u64::MAX,
    ensures
        r@ == cleared(ident@, targets_view(targets@), cap, assume_yes),
{
    assert(targets_view(targets@).len() == targets.len());
    if targets.len() == 0 {
        return Clearance::Refused(
            cat2("No audio/video files found (metadata only?). Browse: https://archive.org/details/", ident),
        );
    }
    let total: u64 = sum_sizes(targets);
    if cap > 0 && total > cap {
        return Clearance::Refused(
            cat4("refusing: ", fmt_size(total).as_str(), " exceeds TROVE_MAX_TOTAL=", fmt_size(cap).as_str()),
        );
    }
    if !assume_yes && (targets.len() > 1 || total > 33554432) {
        return Clearance::Ask(
            cat7(
                "Download ",
                dec_usize(targets.len()).as_str(),
                " file(s) · ",
                fmt_size(total).as_str(),
                " → ",
                targets[0].dir.as_str(),
                "?",
            ),
        );
    }
    Clearance::Go
}

/// What a download comes to next.
pub enum Work {
    /// This is asked; is it agreed to?
    Ask(String),
    /// The target at this place is fetched, counted from 0.
    Fetch(usize),
    /// It is over: how many files came, of how many, and where they are; or why not.
    Over(Result<(usize, usize, String), String>),
}

/// The model of a [`Work`].
#[verifier::ext_equal]
pub enum WorkV {
    Ask(Seq<char>),
    Fetch(int),
    Failed(Seq<char>),
    Done(int, int, Seq<char>),
}

impl View for Work {
    type V = WorkV;

    open spec fn view(&self) -> WorkV {
        match self {
            Work::Ask(q) => WorkV::Ask(q@),
            Work::Fetch(i) => WorkV::Fetch(*i as int),
            Work::Over(Err(e)) => WorkV::Failed(e@),
            Work::Over(Ok((ok, n, dir))) => WorkV::Done(*ok as int, *n as int, dir@),
        }
    }
}

/// What a download of picked targets comes to next. `consent` is what was answered, where it
/// was asked; `results` says of each target so far whether it came.
pub open spec fn work_on(
    ident: Seq<char>,
    targets: Seq<TargetV>,
    cap: u64,
    assume_yes: bool,
    consent: Option<bool>,
    results: Seq<bool>,
) -> WorkV {
    match (cleared(ident, targets, cap, assume_yes), consent) {
        (ClearanceV::Refused(e), _) => WorkV::Failed(e),
        (ClearanceV::Ask(q), None) => WorkV::Ask(q),
        (ClearanceV::Ask(_), Some(false)) => WorkV::Failed("skipped."@),
        _ => if results.len() < targets.len() {
            WorkV::Fetch(results.len() as int)
        } else {
            WorkV::Done(good_count(results) as int, targets.len() as int, targets[0].dir)
        },
    }
}

/// What a download comes to next, given the targets that were picked, or why none could be.
/// It is asked for consent where that is needed; then the targets are fetched in their order.
pub fn do_download_inner(
    ident: &str,
    picked: &Result<Vec<Target>, String>,
    cap: u64,
    assume_yes: bool,
    consent: Option<bool>,
    results: &Vec<bool>,
) -> (r: Work)
    requires
        picked matches Ok(targets) ==> total_size(targets_view(targets@)) <= u64::MAX,
    ensures
        r@ == match picked {
            Ok(targets) => work_on(ident@, targets_view(targets@), cap, assume_yes, consent, results@),
            Err(e) => WorkV::Failed("metadata error: "@ + e@),
        },
{
    let targets = match picked {
        Ok(t) => t,
        Err(e) => {
            return Work::Over(Err(cat2("metadata error: ", e.as_str())));
        },
    };
    assert(targets_view(targets@).len() == targets.len());
    match (clearance(ident, targets, cap, assume_yes), consent) {
        (Clearance::Refused(e), _) => {
            return Work::Over(Err(e));
        },
        (Clearance::Ask(q), None) => {
            return Work::Ask(q);
        },
        (Clearance::Ask(_), Some(false)) => {
            return Work::Over(Err("skipped.".to_owned()));
        },
        _ => {},
    }
    if results.len() < targets.len() {
        return Work::Fetch(results.len());
    }
    let (ok, _) = crate::dlna::dlna_cast_many(results);
    Work::Over(Ok((ok, targets.len(), targets[0].dir.clone())))
}

/// What is told of a target that ended: its place, counted from 1, of how many, its name, and
/// whether it came.
pub struct Word {
    pub place: usize,
    pub count: usize,
    pub name: String,
    pub good: bool,
}

/// The model of a [`Word`].
#[verifier::ext_equal]
pub struct WordV {
    pub place: int,
    pub count: int,
    pub name: Seq<char>,
    pub good: bool,
}

impl View for Word {
    type V = WordV;

    open spec fn view(&self) -> WordV {
        WordV { place: self.place as int, count: self.count as int, name: self.name@, good: self.good }
    }
}

/// All that is told of the targets that ended, in their order.
pub open spec fn told_of(targets: Seq<TargetV>, results: Seq<bool>) -> Seq<WordV> {
    Seq::new(
        results.len(),
        |i: int| WordV { place: i + 1, count: targets.len() as int, name: targets[i].name, good: results[i] },
    )
}

/// What is told of the target that ended last.
pub fn progress_word(targets: &Vec<Target>, results: &Vec<bool>) -> (w: Word)
    requires
        0 < results.len() <= targets.len(),
    ensures
        w@ == told_of(targets_view(targets@), results@).last(),
{
    let n: usize = results.len();
    assert(targets_view(targets@)[n - 1] == targets@[n - 1]@);
    Word { place: n, count: targets.len(), name: targets[n - 1].name.clone(), good: results[n - 1] }
}

/// How a question is put, with what an empty answer means.
pub fn question(prompt: &str, default: bool) -> (s: String)
    ensures
        s@ == prompt@ + (if default { "[Y/n]"@ } else { "[y/N]"@ }) + " "@,
{
    cat3(prompt, if default { "[Y/n]" } else { "[y/N]" }, " ")
}

/// Whether an answer means yes; none was given where the input has failed.
pub open spec fn agreed(answer: Option<Seq<char>>, default: bool) -> bool {
    match answer {
        Some(a) => {
            let t = lower(trim(a));
            if t.len() == 0 {
                default
            } else {
                starts(t, "y"@)
            }
        },
        None => false,
    }
}

/// Whether an answer means yes.
pub fn confirm(answer: Option<&str>, default: bool) -> (b: bool)
    ensures
        b == agreed(opt_str(answer), default),
{
    match answer {
        Some(a) => {
            let t = lowered(trimmed(a).as_str());
            if t.as_str().is_empty() {
                default
            } else {
                starts_with(t.as_str(), "y")
            }
        },
        None => false,
    }
}

/// What is reported of a download: how many files came, of how many, and where they are.
pub fn done_line(ok: usize, n: usize, title: &str, dir: &str) -> (s: String)
    ensures
        s@ == "Done: "@ + dec(ok as int) + "/"@ + dec(n as int) + "  ("@ + title@ + " → "@ + dir@ + ")"@,
{
    let head = cat5("Done: ", dec_usize(ok).as_str(), "/", dec_usize(n).as_str(), "  (");
    cat5(head.as_str(), title, " → ", dir, ")")
}

// ---- one file ----

/// Whether a file is fetched: not where it is there already and not empty.
pub fn must_fetch(exists: bool, len: Option<u64>) -> (b: bool)
    ensures
        b == !(exists && len is Some && len->0 > 0),
{
    match len {
        Some(n) => !(exists && n > 0),
        None => true,
    }
}

/// The name under which a file is written until it is whole.
pub fn part_name(name: &str) -> (s: String)
    ensures
        s@ == name@ + ".part"@,
{
    cat2(name, ".part")
}

/// What is reported when a file is fetched.
pub fn fetch_line(name: &str, size: u64) -> (s: String)
    ensures
        s@ == "  ↓ "@ + name@ + "  "@ + (if size > 0 { size_text(size) } else { "?"@ }),
{
    if size > 0 {
        cat4("  ↓ ", name, "  ", fmt_size(size).as_str())
    } else {
        cat4("  ↓ ", name, "  ", "?")
    }
}

/// The arguments that curl fetches a file with, resuming what is there. Silent, it draws no
/// meter. ccMixter wants to be named as the page that led there.
pub open spec fn curl_arguments(url: Seq<char>, part: Seq<char>, silent: bool) -> Seq<Seq<char>> {
    let head = seq![
        "-fL"@,
        "--retry"@,
        "2"@,
        "--retry-delay"@,
        "2"@,
        "--max-time"@,
        "0"@,
        "-C"@,
        "-"@,
        (if silent {
            "-sS"@
        } else {
            "--progress-bar"@
        }),
        "-A"@,
        "siren-trove/1.0 (legal archive.org + ccmixter client)"@,
    ];
    let referer = if has(url, "ccmixter.org"@) {
        seq!["-e"@, "https://ccmixter.org/"@]
    } else {
        Seq::empty()
    };
    head + referer + seq!["-o"@, part, url]
}

/// The arguments that curl fetches a file with.
pub fn curl_args(url: &str, part: &str, silent: bool) -> (r: Vec<String>)
    ensures
        views(r@) == curl_arguments(url@, part@, silent),
{
    let mut r: Vec<String> = Vec::new();
    r.push("-fL".to_owned());
    r.push("--retry".to_owned());
    r.push("2".to_owned());
    r.push("--retry-delay".to_owned());
    r.push("2".to_owned());
    r.push("--max-time".to_owned());
    r.push("0".to_owned());
    r.push("-C".to_owned());
    r.push("-".to_owned());
    r.push((if silent { "-sS" } else { "--progress-bar" }).to_owned());
    r.push("-A".to_owned());
    r.push("siren-trove/1.0 (legal archive.org + ccmixter client)".to_owned());
    if contains(url, "ccmixter.org") {
        r.push("-e".to_owned());
        r.push("https://ccmixter.org/".to_owned());
    }
    r.push("-o".to_owned());
    r.push(part.to_owned());
    r.push(url.to_owned());
    assert(views(r@) == curl_arguments(url@, part@, silent));
    r
}

/// What is done when curl has ended.
#[derive(Debug, Clone, Copy, PartialEq, Eq, Structural)]
pub enum AfterFetch {
    /// The file is whole: give it its name.
    Rename,
    /// It failed: what is there is kept, to be resumed.
    Keep,
    /// It failed and left an empty file: remove that.
    Remove,
}

/// What is done when curl has ended. `part_len` is the length of the partial file, where it
/// can be told.
pub fn download_file(success: bool, part_exists: bool, part_len: Option<u64>) -> (r: AfterFetch)
    ensures
        r == if success {
            AfterFetch::Rename
        } else if part_exists && part_len == Some(0u64) {
            AfterFetch::Remove
        } else {
            AfterFetch::Keep
        },
{
    if success {
        return AfterFetch::Rename;
    }
    match part_len {
        Some(n) => {
            if part_exists && n == 0 {
                AfterFetch::Remove
            } else {
                AfterFetch::Keep
            }
        },
        None => AfterFetch::Keep,
    }
}

// ---- the choice of a format ----

/// The question for a format; none where there is no choice.
pub fn format_question(formats: &Vec<String>) -> (r: Option<String>)
    ensures
        opt_view(r) == if formats.len() <= 1 {
            None
        } else {
            Some("format ("@ + join(views(formats@), "/"@) + ")? ["@ + formats@[0]@ + "] "@)
        },
{
    if formats.len() <= 1 {
        return None;
    }
    Some(cat5("format (", joined(formats, "/").as_str(), ")? [", formats[0].as_str(), "] "))
}

/// The format that is taken, and whether the answer named an unknown one. Without a choice
/// it is the only one, or everything; an empty answer, a failed input or an unknown format
/// means the first.
pub open spec fn format_taken(formats: Seq<Seq<char>>, answer: Option<Seq<char>>) -> (Seq<char>, bool) {
    if formats.len() == 0 {
        ("all"@, false)
    } else if formats.len() == 1 {
        (formats[0], false)
    } else {
        match answer {
            Some(a) => {
                let t = lower(trim(a));
                if t.len() == 0 {
                    (formats[0], false)
                } else if t == "all"@ || holds(formats, t) {
                    (t, false)
                } else {
                    (formats[0], true)
                }
            },
            None => (formats[0], false),
        }
    }
}

/// The format that is taken, and whether the answer named an unknown one.
pub fn prompt_format(formats: &Vec<String>, answer: Option<&str>) -> (r: (String, bool))
    ensures
        (r.0@, r.1) == format_taken(views(formats@), opt_str(answer)),
{
    assert(views(formats@).len() == formats.len());
    if formats.len() == 0 {
        return ("all".to_owned(), false);
    }
    assert(views(formats@)[0] == formats@[0]@);
    let first = formats[0].clone();
    if formats.len() == 1 {
        return (first, false);
    }
    match answer {
        Some(a) => {
            let t = lowered(trimmed(a).as_str());
            if t.as_str().is_empty() {
                (first, false)
            } else if same(t.as_str(), "all") || list_has(formats, t.as_str()) {
                (t, false)
            } else {
                (first, true)
            }
        },
        None => (first, false),
    }
}

/// Whether a format is asked for: where none was given and there is more than one.
pub fn choose_format(formats: &Vec<String>) -> (b: bool)
    ensures
        b == (formats.len() > 1),
{
    formats.len() > 1
}

// ---- laws ----

/// Whatever is answered, the format that is taken is one that is offered, or `all`.
pub proof fn law_format_is_offered(formats: Seq<Seq<char>>, answer: Option<Seq<char>>)
    ensures
        holds(formats, format_taken(formats, answer).0) || format_taken(formats, answer).0 == "all"@,
{
    if formats.len() > 0 {
        assert(formats[0] == formats[0]);
    }
}

/// The formats of an item are audio formats, each once, in the order of preference.
pub proof fn law_formats_ordered(names: Seq<Seq<char>>)
    ensures
        formats_of(names).no_duplicates(),
        forall|f: Seq<char>| formats_of(names).contains(f) <==> format_order().contains(f) && offers(names, f),
{
    reveal_strlit("mp3");
    reveal_strlit("flac");
    reveal_strlit("ogg");
    reveal_strlit("m4a");
    reveal_strlit("wav");
    reveal_strlit("opus");
    let o = format_order();
    assert(o[0][0] == 'm' && o[0][1] == 'p' && o[1][0] == 'f' && o[2][0] == 'o' && o[2][1] == 'g');
    assert(o[3][0] == 'm' && o[3][1] == '4' && o[4][0] == 'w' && o[5][0] == 'o' && o[5][1] == 'p');
    assert(o.no_duplicates()) by {
        assert forall|i: int, j: int| 0 <= i < o.len() && 0 <= j < o.len() && i != j implies o[i] != o[j] by {
            assert(i == 0 || i == 1 || i == 2 || i == 3 || i == 4 || i == 5);
            assert(j == 0 || j == 1 || j == 2 || j == 3 || j == 4 || j == 5);
        }
    }
    crate::text::lemma_filtered(o, |f: Seq<char>| offers(names, f));
}

/// A download never takes more than forty files, and of a video one.
pub proof fn law_targets_bounded(
    ident: Seq<char>,
    mediatype: Seq<char>,
    format: Option<Seq<char>>,
    text: Seq<char>,
    audio: Seq<char>,
    video: Seq<char>,
)
    ensures
        picked(ident, mediatype, format, text, audio, video) is Ok ==> picked(
            ident,
            mediatype,
            format,
            text,
            audio,
            video,
        )->Ok_0.len() <= 40,
        !is_cc_ident(ident) && json_parsed(text) is Ok && is_video_item(mediatype, json_parsed(text)->Ok_0) ==> picked(
            ident,
            mediatype,
            format,
            text,
            audio,
            video,
        )->Ok_0.len() <= 1,
{
    if !is_cc_ident(ident) && json_parsed(text) is Ok {
        let meta = json_parsed(text)->Ok_0;
        let media = media_files(meta.items_at("files"@));
        lemma_chosen_bounded(ident, at_most(media, 1), wish(format), join_path(video, sanitized(ident)));
        lemma_chosen_bounded(ident, at_most(media, 40), wish(format), join_path(audio, sanitized(ident)));
    }
}

proof fn lemma_chosen_bounded(ident: Seq<char>, media: Seq<JsonV>, want: Option<Seq<char>>, dir: Seq<char>)
    ensures
        chosen(ident, media, want, dir).0.len() <= media.len(),
    decreases media.len(),
{
    if media.len() > 0 {
        lemma_chosen_bounded(ident, media.drop_last(), want, dir);
    }
}

/// All targets of an item go into one directory, which is named after the item.
pub proof fn law_one_directory(ident: Seq<char>, media: Seq<JsonV>, want: Option<Seq<char>>, dir: Seq<char>)
    ensures
        forall|i: int|
            0 <= i < chosen(ident, media, want, dir).0.len() ==> (#[trigger] chosen(ident, media, want, dir).0[i]).dir
                == dir,
    decreases media.len(),
{
    if media.len() > 0 {
        law_one_directory(ident, media.drop_last(), want, dir);
        let before = chosen(ident, media.drop_last(), want, dir).0;
        let now = chosen(ident, media, want, dir).0;
        assert forall|i: int| 0 <= i < now.len() implies (#[trigger] now[i]).dir == dir by {
            if i < before.len() {
                assert(now[i] == before[i]);
            }
        }
    }
}

/// Where a format is wished, one file of each song is taken: no song is there twice, and every
/// song that has a file of that format is there.
pub proof fn law_one_file_per_song(ident: Seq<char>, media: Seq<JsonV>, want: Seq<char>, dir: Seq<char>)
    requires
        want != "all"@,
    ensures
        chosen(ident, media, Some(want), dir).1.no_duplicates(),
        chosen(ident, media, Some(want), dir).1.len() == chosen(ident, media, Some(want), dir).0.len(),
        forall|i: int|
            0 <= i < media.len() && ext_or_empty((#[trigger] media[i]).str_or("name"@, ""@)) == want ==> holds(
                chosen(ident, media, Some(want), dir).1,
                song_stem(media[i].str_or("name"@, ""@)),
            ),
    decreases media.len(),
{
    if media.len() > 0 {
        let t = media.drop_last();
        law_one_file_per_song(ident, t, want, dir);
        let stems = chosen(ident, t, Some(want), dir).1;
        let now = chosen(ident, media, Some(want), dir).1;
        let stem = song_stem(media.last().str_or("name"@, ""@));
        if !holds(stems, stem) {
            assert forall|i: int, j: int| 0 <= i < stems.push(stem).len() && 0 <= j < stems.push(stem).len() && i
                != j implies stems.push(stem)[i] != stems.push(stem)[j] by {
                if i == stems.len() {
                    assert(stems[j] != stem);
                } else if j == stems.len() {
                    assert(stems[i] != stem);
                }
            }
        }
        assert forall|i: int|
            0 <= i < media.len() && ext_or_empty((#[trigger] media[i]).str_or("name"@, ""@)) == want implies holds(
            now,
            song_stem(media[i].str_or("name"@, ""@)),
        ) by {
            if i < t.len() {
                assert(t[i] == media[i]);
                let s = song_stem(t[i].str_or("name"@, ""@));
                let k = choose|k: int| 0 <= k < stems.len() && stems[k] == s;
                assert(now[k] == s);
            } else if !holds(stems, stem) {
                assert(now[stems.len() as int] == stem);
            }
        }
    }
}

/// Each target that ends is told of once, behind those before it; and when a download is done,
/// every target has been told of, by its place, the count, its name and whether it came, and
/// as many came as are said to have.
pub proof fn law_download_told(
    ident: Seq<char>,
    targets: Seq<TargetV>,
    cap: u64,
    assume_yes: bool,
    consent: Option<bool>,
    results: Seq<bool>,
    good: bool,
)
    requires
        results.len() <= targets.len(),
    ensures
        told_of(targets, results.push(good)).drop_last() == told_of(targets, results),
        told_of(targets, results.push(good)).last().good == good,
        work_on(ident, targets, cap, assume_yes, consent, results) matches WorkV::Fetch(i) ==> i == results.len() && i
            < targets.len(),
        work_on(ident, targets, cap, assume_yes, consent, results) matches WorkV::Done(ok, n, dir) ==> {
            &&& n == targets.len()
            &&& told_of(targets, results).len() == n
            &&& forall|i: int|
                0 <= i < n ==> (#[trigger] told_of(targets, results)[i]).place == i + 1 && told_of(targets, results)[i].count
                    == n && told_of(targets, results)[i].name == targets[i].name
            &&& ok == told_of(targets, results).filter(|w: WordV| w.good).len()
        },
{
    assert(told_of(targets, results.push(good)).drop_last() =~= told_of(targets, results));
    lemma_good_words(targets, results);
}

proof fn lemma_good_words(targets: Seq<TargetV>, results: Seq<bool>)
    ensures
        told_of(targets, results).filter(|w: WordV| w.good).len() == good_count(results),
    decreases results.len(),
{
    reveal(Seq::filter);
    if results.len() > 0 {
        let t = results.drop_last();
        lemma_good_words(targets, t);
        assert(told_of(targets, results).drop_last() =~= told_of(targets, t));
    }
}

/// Nothing is fetched of a download that is refused, that awaits consent or that was not agreed
/// to.
pub proof fn law_consent_comes_first(
    ident: Seq<char>,
    targets: Seq<TargetV>,
    cap: u64,
    assume_yes: bool,
    consent: Option<bool>,
    results: Seq<bool>,
)
    ensures
        cleared(ident, targets, cap, assume_yes) is Refused ==> work_on(
            ident,
            targets,
            cap,
            assume_yes,
            consent,
            results,
        ) is Failed,
        cleared(ident, targets, cap, assume_yes) is Ask && consent != Some(true) ==> !(work_on(
            ident,
            targets,
            cap,
            assume_yes,
            consent,
            results,
        ) is Fetch),
{
}

/// A download beyond the limit is refused, whatever was agreed to.
pub proof fn law_limit_holds(cap: u64, ident: Seq<char>, targets: Seq<TargetV>)
    requires
        cap > 0,
        total_size(targets) <= u64::MAX,
        total_size(targets) > cap,
    ensures
        cleared(ident, targets, cap, true) is Refused,
        cleared(ident, targets, cap, false) is Refused,
{
}

/// Which names are of media files: those that end, in any case, with a dot and one of the media
/// endings; of audio files, those of the first six.
pub proof fn law_media_endings(name: Seq<char>)
    ensures
        ({
            let lo = lower(name);
            let audio = ends(lo, ".mp3"@) || ends(lo, ".ogg"@) || ends(lo, ".flac"@) || ends(lo, ".m4a"@) || ends(
                lo,
                ".wav"@,
            ) || ends(lo, ".opus"@);
            let video = ends(lo, ".mp4"@) || ends(lo, ".mkv"@) || ends(lo, ".webm"@) || ends(lo, ".avi"@) || ends(
                lo,
                ".ogv"@,
            ) || ends(lo, ".mov"@);
            &&& is_audio_name(name) <==> audio
            &&& ext_in(name) is Some <==> audio || video
            &&& ext_in(name) matches Some(e) ==> ends(lo, "."@ + e)
        }),
{
    let lo = lower(name);
    reveal_strlit(".");
    reveal_strlit("mp3");
    reveal_strlit("ogg");
    reveal_strlit("flac");
    reveal_strlit("m4a");
    reveal_strlit("wav");
    reveal_strlit("opus");
    reveal_strlit("mp4");
    reveal_strlit("mkv");
    reveal_strlit("webm");
    reveal_strlit("avi");
    reveal_strlit("ogv");
    reveal_strlit("mov");
    reveal_strlit(".mp3");
    reveal_strlit(".ogg");
    reveal_strlit(".flac");
    reveal_strlit(".m4a");
    reveal_strlit(".wav");
    reveal_strlit(".opus");
    reveal_strlit(".mp4");
    reveal_strlit(".mkv");
    reveal_strlit(".webm");
    reveal_strlit(".avi");
    reveal_strlit(".ogv");
    reveal_strlit(".mov");
    let m = media_ext();
    assert("."@ + m[0] =~= ".mp3"@);
    assert("."@ + m[1] =~= ".ogg"@);
    assert("."@ + m[2] =~= ".flac"@);
    assert("."@ + m[3] =~= ".m4a"@);
    assert("."@ + m[4] =~= ".wav"@);
    assert("."@ + m[5] =~= ".opus"@);
    assert("."@ + m[6] =~= ".mp4"@);
    assert("."@ + m[7] =~= ".mkv"@);
    assert("."@ + m[8] =~= ".webm"@);
    assert("."@ + m[9] =~= ".avi"@);
    assert("."@ + m[10] =~= ".ogv"@);
    assert("."@ + m[11] =~= ".mov"@);
    reveal_with_fuel(ending_from, 13);
}

/// The target that was made of the file at `i` is the `k`th of those that were chosen, as
/// [`law_target_is_a_listed_file`] needs it.
proof fn lemma_chosen_origin(ident: Seq<char>, media: Seq<JsonV>, want: Option<Seq<char>>, dir: Seq<char>, k: int) -> (i: int)
    requires
        0 <= k < chosen(ident, media, want, dir).0.len(),
    ensures
        k <= i < media.len(),
        chosen(ident, media, want, dir).0[k] == archive_target(ident, media[i], dir),
        want matches Some(w) ==> w == "all"@ || ext_or_empty(media[i].str_or("name"@, ""@)) == w,
        want is None || want == Some("all"@) ==> i == k && chosen(ident, media, want, dir).0.len() == media.len(),
    decreases media.len(),
{
    let f = media.drop_last();
    let front = chosen(ident, f, want, dir).0;
    if want is None || want == Some("all"@) {
        lemma_chosen_all(ident, media, want, dir);
        lemma_chosen_all(ident, f, want, dir);
    } else {
        lemma_chosen_bounded(ident, f, want, dir);
    }
    if k < front.len() {
        assert(chosen(ident, media, want, dir).0[k] == front[k]);
        let i = lemma_chosen_origin(ident, f, want, dir, k);
        assert(f[i] == media[i]);
        i
    } else {
        assert(media[media.len() - 1] == media.last());
        media.len() - 1
    }
}

proof fn lemma_chosen_all(ident: Seq<char>, media: Seq<JsonV>, want: Option<Seq<char>>, dir: Seq<char>)
    requires
        want is None || want == Some("all"@),
    ensures
        chosen(ident, media, want, dir).0.len() == media.len(),
    decreases media.len(),
{
    if media.len() > 0 {
        lemma_chosen_all(ident, media.drop_last(), want, dir);
    }
}

/// Every target of an item of the archive is a listed file of the item, whatever format is
/// wished: what its address has behind the item's identifier decodes to the name of that file,
/// the file is stored under the last part of that name, with the size that is listed for it, in
/// the directory that is named after the item; and where a format is wished, the name ends so.
pub proof fn law_target_is_a_listed_file(
    ident: Seq<char>,
    mediatype: Seq<char>,
    format: Option<Seq<char>>,
    text: Seq<char>,
    audio: Seq<char>,
    video: Seq<char>,
    k: int,
) -> (i: int)
    requires
        !starts(ident, "ccmixter:"@),
        picked(ident, mediatype, format, text, audio, video) is Ok,
        0 <= k < picked(ident, mediatype, format, text, audio, video)->Ok_0.len(),
    ensures
        json_parsed(text) is Ok,
        ({
            let files = json_parsed(text)->Ok_0.items_at("files"@);
            let t = picked(ident, mediatype, format, text, audio, video)->Ok_0[k];
            let n = files[i].str_at("name"@)->0;
            let site = "https://archive.org/download/"@ + path_text(ident) + "/"@;
            &&& 0 <= i < files.len()
            &&& files[i].str_at("name"@) is Some
            &&& starts(t.url, site)
            &&& unpercent(t.url.skip(site.len() as int), false) == encode_utf8(n)
            &&& t.url.skip(site.len() as int) == percent(encode_utf8(n), false, true)
            &&& unpercent(path_text(ident), false) == encode_utf8(ident)
            &&& !t.name.contains('/')
            &&& n == t.name || exists|a: Seq<char>| n == #[trigger] (a.push('/') + t.name)
            &&& t.size == match files[i].u64_at("size"@) {
                Some(s) => s,
                None => 0,
            }
            &&& t.dir == join_path(audio, sanitized(ident)) || t.dir == join_path(video, sanitized(ident))
            &&& format matches Some(w) ==> lower(w) == "all"@ || ends(lower(n), "."@ + lower(w))
        }),
{
    let meta = json_parsed(text)->Ok_0;
    let files = meta.items_at("files"@);
    let media = media_files(files);
    let ts = picked(ident, mediatype, format, text, audio, video)->Ok_0;
    let (some, dir) = if is_video_item(mediatype, meta) {
        (at_most(media, 1), join_path(video, sanitized(ident)))
    } else {
        (at_most(media, 40), join_path(audio, sanitized(ident)))
    };
    assert(ts == chosen(ident, some, wish(format), dir).0);
    let j = lemma_chosen_origin(ident, some, wish(format), dir, k);
    assert(some[j] == media[j]);
    let f = media[j];
    crate::text::lemma_filtered(files, |f: JsonV| is_media(f));
    assert(media.contains(f));
    assert(is_media(f));
    let i = files.index_of(f);
    let n = f.str_at("name"@)->0;
    let site = "https://archive.org/download/"@ + path_text(ident) + "/"@;
    let t = ts[k];
    assert(t.url == site + slash_path_text(n));
    assert(t.url.subrange(0, site.len() as int) == site);
    assert(t.url.skip(site.len() as int) == slash_path_text(n));
    crate::urls::law_percent_reads_back(encode_utf8(n), false, true);
    crate::urls::law_percent_reads_back(encode_utf8(ident), false, false);
    crate::text::law_after_last(n, '/');
    law_media_endings(n);
    i
}

/// Without a wish, or with a wish for all, every media file of an item is taken, in its order: of
/// an audio item the first forty, of a video the first.
pub proof fn law_everything_is_taken(
    ident: Seq<char>,
    mediatype: Seq<char>,
    format: Option<Seq<char>>,
    text: Seq<char>,
    audio: Seq<char>,
    video: Seq<char>,
)
    requires
        !starts(ident, "ccmixter:"@),
        json_parsed(text) is Ok,
        format matches Some(w) ==> lower(w) == "all"@,
    ensures
        ({
            let meta = json_parsed(text)->Ok_0;
            let media = meta.items_at("files"@).filter(
                |f: JsonV| f.str_at("name"@) is Some && ext_in(f.str_at("name"@)->0) is Some,
            );
            let ts = picked(ident, mediatype, format, text, audio, video);
            let limit: int = if is_video_item(mediatype, meta) {
                1
            } else {
                40
            };
            &&& ts is Ok
            &&& ts->Ok_0.len() == if media.len() < limit {
                media.len() as int
            } else {
                limit
            }
            &&& forall|k: int|
                0 <= k < ts->Ok_0.len() ==> ends(
                    (#[trigger] ts->Ok_0[k]).url,
                    "/"@ + percent(encode_utf8(media[k].str_at("name"@)->0), false, true),
                ) && ts->Ok_0[k].dir == join_path(
                    if limit == 1 {
                        video
                    } else {
                        audio
                    },
                    sanitized(ident),
                )
        }),
{
    let meta = json_parsed(text)->Ok_0;
    let files = meta.items_at("files"@);
    let p = |f: JsonV| f.str_at("name"@) is Some && ext_in(f.str_at("name"@)->0) is Some;
    assert(p =~= (|f: JsonV| is_media(f)));
    let media = media_files(files);
    assert(files.filter(p) == media);
    let ts = picked(ident, mediatype, format, text, audio, video)->Ok_0;
    let (some, dir) = if is_video_item(mediatype, meta) {
        (at_most(media, 1), join_path(video, sanitized(ident)))
    } else {
        (at_most(media, 40), join_path(audio, sanitized(ident)))
    };
    lemma_chosen_all(ident, some, wish(format), dir);
    crate::text::lemma_filtered(files, p);
    assert forall|k: int| 0 <= k < ts.len() implies ends(
        (#[trigger] ts[k]).url,
        "/"@ + percent(encode_utf8(media[k].str_at("name"@)->0), false, true),
    ) && ts[k].dir == dir by {
        let j = lemma_chosen_origin(ident, some, wish(format), dir, k);
        assert(some[k] == media[k]);
        assert(media.contains(media[k]));
        let n = media[k].str_at("name"@)->0;
        let end = "/"@ + slash_path_text(n);
        let head = "https://archive.org/download/"@ + path_text(ident);
        assert(ts[k].url == head + end);
        assert((head + end).subrange(head.len() as int, (head + end).len() as int) == end);
    }
}

/// An item is a video where its media type, as it was given or else as it is listed, begins with
/// `movie` in any case, or where none of its files is an audio file.
pub proof fn law_video_items(mediatype: Seq<char>, meta: JsonV, i: int)
    ensures
        mediatype.len() > 0 && starts(lower(mediatype), "movie"@) ==> is_video_item(mediatype, meta),
        mediatype.len() == 0 && starts(lower(meta.str_or("mediatype"@, ""@)), "movie"@) ==> is_video_item(mediatype, meta),
        ({
            let files = meta.items_at("files"@);
            &&& 0 <= i < files.len() && files[i].str_at("name"@) is Some && is_audio_name(files[i].str_at("name"@)->0)
                && mediatype.len() > 0 && !starts(lower(mediatype), "movie"@) ==> !is_video_item(mediatype, meta)
            &&& (forall|j: int|
                0 <= j < files.len() && (#[trigger] files[j]).str_at("name"@) is Some ==> !is_audio_name(
                    files[j].str_at("name"@)->0,
                )) ==> is_video_item(mediatype, meta)
        }),
{
    let files = meta.items_at("files"@);
    let media = media_files(files);
    crate::text::lemma_filtered(files, |f: JsonV| is_media(f));
    if 0 <= i < files.len() && files[i].str_at("name"@) is Some && is_audio_name(files[i].str_at("name"@)->0) {
        assert(files.contains(files[i]));
        assert(media.contains(files[i]));
        let j = media.index_of(files[i]);
        assert(is_audio_name(media[j].str_or("name"@, ""@)));
    }
    if forall|j: int|
        0 <= j < files.len() && (#[trigger] files[j]).str_at("name"@) is Some ==> !is_audio_name(files[j].str_at("name"@)->0) {
        if any_audio(media) {
            let j = choose|j: int| 0 <= j < media.len() && is_audio_name((#[trigger] media[j]).str_or("name"@, ""@));
            assert(media.contains(media[j]));
            let l = files.index_of(media[j]);
            assert(files[l].str_at("name"@) is Some);
        }
    }
}

/// Versions of a song that differ in their bit rates, in case, in punctuation, in their directories
/// or in what stands behind their first dots are one song; songs whose letters and digits differ
/// are not.
pub proof fn law_versions_of_a_song(
    dir: Seq<char>,
    base: Seq<char>,
    mark: char,
    digits: Seq<char>,
    ext: Seq<char>,
    other: Seq<char>,
)
    requires
        all_ascii(base),
        all_digits(digits),
        mark == '_' || mark == '-' || mark == ' ',
        !base.contains('.') && !base.contains('/'),
        !ext.contains('/') && !other.contains('/'),
        base.len() > 0,
        lower(base).last() != 'k' && lower(base).last() != 'b' && lower(base).last() != 'r',
    ensures
        song_stem(base + "."@ + ext) == only_alnum(lower(base)),
        song_stem(dir + "/"@ + base + "."@ + other) == only_alnum(lower(base)),
        song_stem(base.push(mark) + digits + "kb"@ + "."@ + other) == only_alnum(lower(base)),
        song_stem(base.push(mark) + digits + "k"@ + "."@ + other) == only_alnum(lower(base)),
        song_stem(base.push(mark) + "vbr"@ + "."@ + other) == only_alnum(lower(base)),
{
    reveal_strlit(".");
    reveal_strlit("kb");
    reveal_strlit("k");
    reveal_strlit("vbr");
    reveal_strlit("/");
    lemma_stem_of(Seq::empty(), base, Seq::empty(), ext);
    assert(base + Seq::<char>::empty() == base);
    lemma_no_rate(lower(base));
    let s = lower(base);
    assert(s.take(s.len() - 0) == s);
    lemma_stem_of(dir + "/"@, base, Seq::empty(), other);
    let m = base.push(mark);
    lemma_rate(base, mark, digits, "kb"@);
    lemma_rate(base, mark, digits, "k"@);
    lemma_rate(base, mark, Seq::empty(), "vbr"@);
    lemma_stem_of(Seq::empty(), m, digits + "kb"@, other);
    lemma_stem_of(Seq::empty(), m, digits + "k"@, other);
    lemma_stem_of(Seq::empty(), m, "vbr"@, other);
    assert(m + digits + "kb"@ == m + (digits + "kb"@));
    assert(m + digits + "k"@ == m + (digits + "k"@));
    assert(Seq::<char>::empty() + "vbr"@ == "vbr"@);
}

proof fn lemma_stem_of(head: Seq<char>, a: Seq<char>, b: Seq<char>, ext: Seq<char>)
    requires
        head.len() == 0 || head.last() == '/',
        !(a + b).contains('.'),
        !(a + b).contains('/'),
        !ext.contains('/'),
    ensures
        song_stem(head + a + b + "."@ + ext) == only_alnum(
            lower(a + b).take(lower(a + b).len() - rate_len(lower(a + b))),
        ),
        song_stem(a + b + "."@ + ext) == only_alnum(lower(a + b).take(lower(a + b).len() - rate_len(lower(a + b)))),
        b.len() == 0 ==> song_stem(head + a + "."@ + ext) == song_stem(a + "."@ + ext),
{
    lemma_before_dot(head, a + b, ext);
    lemma_before_dot(Seq::empty(), a + b, ext);
    lemma_group(head, a, b, "."@, ext);
    lemma_group(Seq::empty(), a, b, "."@, ext);
    assert(Seq::<char>::empty() + a =~= a);
    if b.len() == 0 {
        assert(head + a + b =~= head + a);
        assert(a + b =~= a);
    }
}

proof fn lemma_group(a: Seq<char>, b: Seq<char>, c: Seq<char>, d: Seq<char>, e: Seq<char>)
    ensures
        a + b + c + d + e == a + ((b + c) + (d + e)),
{
    assert(a + b + c =~= a + (b + c));
    assert(a + (b + c) + d + e =~= a + (b + c) + (d + e));
    assert(a + (b + c) + (d + e) =~= a + ((b + c) + (d + e)));
}

proof fn lemma_before_dot(head: Seq<char>, c: Seq<char>, ext: Seq<char>)
    requires
        head.len() == 0 || head.last() == '/',
        !c.contains('.'),
        !c.contains('/'),
        !ext.contains('/'),
    ensures
        before_dot(after_last(head + (c + ("."@ + ext)), '/')) == c,
{
    reveal_strlit(".");
    let tail = "."@ + ext;
    let name = c + tail;
    let full = head + name;
    assert(tail[0] == '.');
    assert forall|j: int| 0 <= j < tail.len() implies tail[j] != '/' by {
        if j > 0 {
            assert(ext[j - 1] == tail[j]);
        }
    }
    assert forall|j: int| 0 <= j < name.len() implies name[j] != '/' by {
        if j < c.len() {
            assert(c[j] == name[j]);
        } else {
            assert(tail[j - c.len()] == name[j]);
        }
    }
    assert(after_last(full, '/') == name) by {
        lemma_char_pos(full, '/');
        assert forall|j: int| head.len() <= j < full.len() implies full[j] != '/' by {
            assert(full[j] == name[j - head.len()]);
        }
        if head.len() > 0 {
            assert(full[head.len() - 1] == '/');
            assert(full.skip(head.len() as int) =~= name);
        } else {
            assert(full =~= name);
        }
    }
    lemma_char_pos(name, '.');
    assert(name[c.len() as int] == '.');
    assert forall|j: int| 0 <= j < c.len() implies name[j] != '.' by {
        assert(c[j] == name[j]);
    }
    assert(name.take(c.len() as int) =~= c);
}

proof fn lemma_no_rate(s: Seq<char>)
    requires
        s.len() > 0,
        s.last() != 'k' && s.last() != 'b' && s.last() != 'r',
    ensures
        rate_len(s) == 0,
{
    reveal_strlit("kb");
    reveal_strlit("k");
    reveal_strlit("vbr");
    if ends(s, "kb"@) {
        assert(s.subrange(s.len() - 2, s.len() as int)[1] == 'b');
    }
    if ends(s, "k"@) {
        assert(s.subrange(s.len() - 1, s.len() as int)[0] == 'k');
    }
    if ends(s, "vbr"@) {
        assert(s.subrange(s.len() - 3, s.len() as int)[2] == 'r');
    }
}

proof fn lemma_rate(base: Seq<char>, mark: char, digits: Seq<char>, unit: Seq<char>)
    requires
        all_ascii(base),
        mark == '_' || mark == '-' || mark == ' ',
        !base.contains('.') && !base.contains('/'),
        unit == "vbr"@ && digits.len() == 0 || ((unit == "kb"@ || unit == "k"@) && all_digits(digits)),
    ensures
        !(base.push(mark) + (digits + unit)).contains('.'),
        !(base.push(mark) + (digits + unit)).contains('/'),
        ({
            let s = lower(base.push(mark) + (digits + unit));
            only_alnum(s.take(s.len() - rate_len(s))) == only_alnum(lower(base))
        }),
{
    reveal_strlit("kb");
    reveal_strlit("k");
    reveal_strlit("vbr");
    let m = base.push(mark);
    let tag = digits + unit;
    let raw = m + tag;
    assert(all_ascii(m));
    assert forall|i: int| 0 <= i < tag.len() implies is_ascii(#[trigger] tag[i]) && ascii_lower(tag[i]) == tag[i] && tag[i] != '.'
        && tag[i] != '/' by {
        if i < digits.len() {
            assert(tag[i] == digits[i]);
            assert(is_digit(digits[i]));
        } else {
            assert(tag[i] == unit[i - digits.len()]);
        }
    }
    lemma_lower_adds(m, tag);
    assert(lower(tag) =~= tag);
    let s = lower(raw);
    let lm = lower(m);
    assert(s == lm + tag);
    assert(lm =~= lower(base).push(mark));
    assert forall|x: char| (x == '.' || x == '/') implies !raw.contains(x) by {
        if raw.contains(x) {
            let k = raw.index_of(x);
            if k < base.len() {
                assert(base[k] == x);
            } else if k > base.len() {
                assert(tag[k - m.len()] == x);
            }
        }
    }
    let u = unit.len() as int;
    assert(s.subrange(s.len() - u, s.len() as int) =~= unit);
    if unit == "vbr"@ {
        assert(s.take(s.len() - 3) =~= lm);
    } else {
        if unit == "k"@ {
            if ends(s, "kb"@) {
                assert(s.subrange(s.len() - 2, s.len() as int)[1] == 'b');
                assert(s.last() == unit[0]);
            }
        }
        if ends(s, "vbr"@) {
            assert(s.subrange(s.len() - 3, s.len() as int)[2] == 'r');
            assert(s.last() == unit[u - 1]);
        }
        assert(s.take(s.len() - u) =~= lm + digits);
        lemma_digits_at_end(lm, digits);
        assert(s.take(s.len() - u - digits.len()) =~= lm);
    }
    crate::text::lemma_filter_push(lower(base), |c: char| is_alnum(c), mark);
    assert(!is_alnum(mark));
}

proof fn lemma_digits_at_end(a: Seq<char>, digits: Seq<char>)
    requires
        a.len() > 0 && !is_digit(a.last()),
        forall|i: int| 0 <= i < digits.len() ==> is_digit(#[trigger] digits[i]),
    ensures
        digits_at_end(a + digits) == digits.len(),
    decreases digits.len(),
{
    if digits.len() == 0 {
        assert(a + digits == a);
    } else {
        assert((a + digits).last() == digits[digits.len() - 1]);
        assert((a + digits).drop_last() == a + digits.drop_last());
        lemma_digits_at_end(a, digits.drop_last());
    }
}

/// Where a format is wished, every song that comes in it among the first forty media files is
/// taken: by a file of that song that is listed no later.
pub proof fn law_wished_songs_are_taken(
    ident: Seq<char>,
    mediatype: Seq<char>,
    want: Seq<char>,
    text: Seq<char>,
    audio: Seq<char>,
    video: Seq<char>,
    i: int,
) -> (k: int)
    requires
        !starts(ident, "ccmixter:"@),
        json_parsed(text) is Ok,
        lower(want) != "all"@,
        !is_video_item(mediatype, json_parsed(text)->Ok_0),
        0 <= i < media_files(json_parsed(text)->Ok_0.items_at("files"@)).len(),
        i < 40,
        ext_in(media_files(json_parsed(text)->Ok_0.items_at("files"@))[i].str_or("name"@, ""@)) == Some(lower(want)),
    ensures
        ({
            let media = media_files(json_parsed(text)->Ok_0.items_at("files"@));
            let ts = picked(ident, mediatype, Some(want), text, audio, video)->Ok_0;
            &&& 0 <= k < ts.len()
            &&& k <= i
            &&& song_stem(ts[k].name) == song_stem(media[i].str_or("name"@, ""@))
        }),
{
    let media = media_files(json_parsed(text)->Ok_0.items_at("files"@));
    let some = at_most(media, 40);
    let dir = join_path(audio, sanitized(ident));
    assert(some[i] == media[i]);
    lemma_song_taken(ident, some, lower(want), dir, i)
}

proof fn lemma_song_taken(ident: Seq<char>, media: Seq<JsonV>, want: Seq<char>, dir: Seq<char>, i: int) -> (k: int)
    requires
        want != "all"@,
        0 <= i < media.len(),
        ext_or_empty(media[i].str_or("name"@, ""@)) == want,
    ensures
        0 <= k < chosen(ident, media, Some(want), dir).0.len(),
        k <= i,
        song_stem(chosen(ident, media, Some(want), dir).0[k].name) == song_stem(media[i].str_or("name"@, ""@)),
    decreases media.len(),
{
    let f = media.drop_last();
    let front = chosen(ident, f, Some(want), dir);
    let all = chosen(ident, media, Some(want), dir);
    lemma_chosen_bounded(ident, f, Some(want), dir);
    if i < f.len() {
        assert(f[i] == media[i]);
        let k = lemma_song_taken(ident, f, want, dir, i);
        assert(all.0[k] == front.0[k]);
        k
    } else {
        let name = media[i].str_or("name"@, ""@);
        lemma_stems_match(ident, f, want, dir);
        crate::text::law_after_last(name, '/');
        lemma_char_pos(after_last(name, '/'), '/');
        if holds(front.1, song_stem(name)) {
            let k = choose|k: int| 0 <= k < front.1.len() && front.1[k] == song_stem(name);
            assert(all.0[k] == front.0[k]);
            k
        } else {
            assert(all.0[front.0.len() as int] == archive_target(ident, media[i], dir));
            assert(after_last(after_last(name, '/'), '/') == after_last(name, '/'));
            front.0.len() as int
        }
    }
}

proof fn lemma_stems_match(ident: Seq<char>, media: Seq<JsonV>, want: Seq<char>, dir: Seq<char>)
    requires
        want != "all"@,
    ensures
        chosen(ident, media, Some(want), dir).0.len() == chosen(ident, media, Some(want), dir).1.len(),
        forall|k: int|
            0 <= k < chosen(ident, media, Some(want), dir).0.len() ==> song_stem(
                (#[trigger] chosen(ident, media, Some(want), dir).0[k]).name,
            ) == chosen(ident, media, Some(want), dir).1[k],
    decreases media.len(),
{
    if media.len() > 0 {
        let f = media.drop_last();
        lemma_stems_match(ident, f, want, dir);
        let front = chosen(ident, f, Some(want), dir);
        let all = chosen(ident, media, Some(want), dir);
        let name = media.last().str_or("name"@, ""@);
        crate::text::law_after_last(name, '/');
        assert(after_last(after_last(name, '/'), '/') == after_last(name, '/')) by {
            crate::text::law_after_last(after_last(name, '/'), '/');
        }
        assert forall|k: int| 0 <= k < all.0.len() implies song_stem((#[trigger] all.0[k]).name) == all.1[k] by {
            if k < front.0.len() {
                assert(all.0[k] == front.0[k]);
            }
        }
    }
}

/// Of an item of ccMixter every file that has a name, an address and the wished ending is taken,
/// in its order, and fetched from the address that is listed with it; without a wish, every audio
/// file.
pub proof fn law_ccmixter_targets(f: JsonV, w: Seq<char>, dir: Seq<char>, files: Seq<JsonV>, want: Option<Seq<char>>)
    ensures
        cc_targets(files.push(f), want, dir) == cc_targets(files, want, dir) + cc_targets(seq![f], want, dir),
        ({
            let n = f.str_or("file_name"@, ""@);
            let u = f.str_or("download_url"@, ""@);
            let t = cc_targets(seq![f], None, dir);
            let tw = cc_targets(seq![f], Some(w), dir);
            &&& t.len() <= 1 && tw.len() <= 1
            &&& t.len() == 1 <==> n.len() > 0 && u.len() > 0 && is_audio_name(n)
            &&& w != "all"@ && w.len() > 0 ==> (tw.len() == 1 <==> n.len() > 0 && u.len() > 0 && ext_in(n) == Some(w))
            &&& w == "all"@ ==> (tw.len() == 1 <==> n.len() > 0 && u.len() > 0)
            &&& tw.len() == 1 ==> tw[0].url == u && tw[0].dir == dir && (n == tw[0].name || exists|a: Seq<char>|
                n == #[trigger] (a.push('/') + tw[0].name)) && !tw[0].name.contains('/') && tw[0].size == match f.u64_at(
                "file_rawsize"@,
            ) {
                Some(s) => s,
                None => 0,
            }
            &&& t.len() == 1 ==> t[0].url == u && t[0].dir == dir && (n == t[0].name || exists|a: Seq<char>|
                n == #[trigger] (a.push('/') + t[0].name)) && !t[0].name.contains('/')
        }),
{
    reveal_strlit("");
    reveal_strlit("all");
    let none = Seq::<JsonV>::empty();
    assert(seq![f].drop_last() == none);
    assert(seq![f].last() == f);
    reveal_with_fuel(cc_targets, 2);
    assert(files.push(f).drop_last() == files);
    assert(cc_targets(files.push(f), want, dir) =~= cc_targets(files, want, dir) + cc_targets(seq![f], want, dir));
    crate::text::law_after_last(f.str_or("file_name"@, ""@), '/');
}

/// The answer to a question: one that begins with a `y`, white space and case aside, agrees, an
/// empty one leaves it at what is preset, and none at all refuses.
pub proof fn law_agreement(a: Seq<char>, default: bool)
    ensures
        !agreed(None, default),
        trim(a).len() == 0 ==> agreed(Some(a), default) == default,
        all_ascii(trim(a)) && trim(a).len() > 0 ==> (agreed(Some(a), default) <==> trim(a)[0] == 'y' || trim(a)[0] == 'Y'),
{
    reveal_strlit("y");
    let t = trim(a);
    if t.len() == 0 {
        assert(lower(t) =~= Seq::<char>::empty());
    } else if all_ascii(t) {
        assert(lower(t).subrange(0, 1) =~= seq![lower(t)[0]]);
        assert(seq![lower(t)[0]][0] == lower(t)[0]);
        assert("y"@ =~= seq!['y']);
    }
}

/// A download goes ahead unasked where it is one file of at most 32 megabytes, or consent is
/// presumed; else it is asked for. Without files there is none. The sizes add up file by file.
pub proof fn law_when_to_ask(ident: Seq<char>, targets: Seq<TargetV>, t: TargetV, cap: u64, assume_yes: bool)
    requires
        total_size(targets) <= u64::MAX,
    ensures
        targets.len() == 0 ==> cleared(ident, targets, cap, assume_yes) is Refused,
        targets.len() > 0 && (cap == 0 || total_size(targets) <= cap) ==> {
            &&& !(cleared(ident, targets, cap, assume_yes) is Refused)
            &&& cleared(ident, targets, cap, true) is Go
            &&& cleared(ident, targets, cap, false) is Ask <==> targets.len() > 1 || total_size(targets) > 32 * 1024 * 1024
        },
        cleared(ident, targets, cap, assume_yes) matches ClearanceV::Ask(q) ==> starts(
            q,
            "Download "@ + dec(targets.len() as int) + " file(s)"@,
        ) && has(q, targets[0].dir),
        total_size(targets.push(t)) == total_size(targets) + t.size,
        total_size(Seq::<TargetV>::empty()) == 0,
{
    assert(targets.push(t).drop_last() == targets);
    if let ClearanceV::Ask(q) = cleared(ident, targets, cap, assume_yes) {
        reveal_strlit(" file(s) · ");
        reveal_strlit(" file(s)");
        let h = "Download "@ + dec(targets.len() as int) + " file(s)"@;
        let s = size_text(total_size(targets) as u64);
        assert(" file(s) · "@ =~= " file(s)"@ + " file(s) · "@.skip(8));
        let z = " file(s) · "@.skip(8) + s + " → "@ + targets[0].dir + "?"@;
        assert(q =~= h + z);
        assert((h + z).subrange(0, h.len() as int) =~= h);
        let a = "Download "@ + dec(targets.len() as int) + " file(s) · "@ + s + " → "@;
        crate::text::law_has_is_contains(a, targets[0].dir, "?"@);
    }
}

/// A file is fetched to the place of the partial file, from its address, going on where it was
/// left.
pub proof fn law_fetch_resumes(url: Seq<char>, part: Seq<char>, silent: bool)
    ensures
        ({
            let a = curl_arguments(url, part, silent);
            &&& a.last() == url
            &&& a.drop_last().last() == part
            &&& a.drop_last().drop_last().last() == "-o"@
            &&& exists|i: int| 0 <= i < a.len() - 1 && #[trigger] a[i] == "-C"@ && a[i + 1] == "-"@
            &&& a.contains("-fL"@)
            &&& has(url, "ccmixter.org"@) <==> exists|i: int|
                0 <= i < a.len() - 4 && #[trigger] a[i] == "-e"@ && a[i + 1] == "https://ccmixter.org/"@
        }),
{
    let a = curl_arguments(url, part, silent);
    reveal_strlit("-e");
    reveal_strlit("-fL");
    reveal_strlit("--retry");
    reveal_strlit("2");
    reveal_strlit("--retry-delay");
    reveal_strlit("--max-time");
    reveal_strlit("0");
    reveal_strlit("-C");
    reveal_strlit("-");
    reveal_strlit("-sS");
    reveal_strlit("--progress-bar");
    reveal_strlit("-A");
    assert(a[0] == "-fL"@ && a[7] == "-C"@ && a[8] == "-"@);
    assert("-e"@.len() == 2 && "-e"@[1] == 'e' && "-A"@[1] == 'A' && "-C"@[1] == 'C');
    if has(url, "ccmixter.org"@) {
        assert(a[12] == "-e"@ && a[13] == "https://ccmixter.org/"@);
    } else {
        assert(a.len() == 15);
        assert forall|i: int| 0 <= i < 11 implies #[trigger] a[i] != "-e"@ by {
            assert(a[0].len() == 3 && a[1].len() == 7 && a[2].len() == 1 && a[3].len() == 13 && a[4].len() == 1);
            assert(a[5].len() == 10 && a[6].len() == 1 && a[7].len() == 2 && a[8].len() == 1 && a[9].len() >= 3);
            assert(a[10].len() == 2 && a[10][1] == 'A');
        }
    }
}

/// The formats of an item stand in the order of preference: mp3, flac, ogg, m4a, wav, opus. Each is
/// there where a file ends so.
pub proof fn law_preferred_format_first(names: Seq<Seq<char>>)
    ensures
        (exists|i: int| 0 <= i < names.len() && ext_in(#[trigger] names[i]) == Some("mp3"@)) ==> formats_of(names).len() > 0
            && formats_of(names)[0] == "mp3"@,
        format_order() == seq!["mp3"@, "flac"@, "ogg"@, "m4a"@, "wav"@, "opus"@],
        forall|f: Seq<char>|
            #[trigger] formats_of(names).contains(f) <==> format_order().contains(f) && exists|i: int|
                0 <= i < names.len() && ext_in(#[trigger] names[i]) == Some(f),
{
    law_formats_ordered(names);
    let o = format_order();
    let p = |f: Seq<char>| offers(names, f);
    assert forall|f: Seq<char>| #[trigger] formats_of(names).contains(f) <==> format_order().contains(f) && exists|i: int|
        0 <= i < names.len() && ext_in(#[trigger] names[i]) == Some(f) by {
        assert(offers(names, f) <==> exists|i: int| 0 <= i < names.len() && ext_in(#[trigger] names[i]) == Some(f));
    }
    if p("mp3"@) {
        lemma_filter_head(o, p);
    }
}

proof fn lemma_filter_head(s: Seq<Seq<char>>, p: spec_fn(Seq<char>) -> bool)
    requires
        s.len() > 0,
        p(s[0]),
    ensures
        s.filter(p).len() > 0,
        s.filter(p)[0] == s[0],
    decreases s.len(),
{
    reveal(Seq::filter);
    if s.len() > 1 {
        lemma_filter_head(s.drop_last(), p);
    } else {
        assert(s.drop_last().filter(p) == Seq::<Seq<char>>::empty());
    }
}

/// An identifier becomes a directory's name: letters, digits, dots, dashes and underscores stay,
/// all else becomes an underscore, and eighty characters are kept.
pub proof fn law_directory_is_safe(ident: Seq<char>, i: int)
    ensures
        sanitized(ident).len() == if ident.len() < 80 {
            ident.len() as int
        } else {
            80
        },
        0 <= i < sanitized(ident).len() ==> sanitized(ident)[i] == if is_alnum(ident[i]) || ident[i] == '.' || ident[i] == '-'
            || ident[i] == '_' {
            ident[i]
        } else {
            '_'
        },
        !sanitized(ident).contains('/'),
{
    if sanitized(ident).contains('/') {
        let k = sanitized(ident).index_of('/');
        assert(!is_alnum('/'));
        assert(sanitized(ident)[k] == safe_char(ident[k]));
    }
}

/// What is answered is taken: a format that is offered, or `all`, in any case; an empty answer, or
/// none, takes the first format, and so does one that is not offered, which is said.
pub proof fn law_answer_is_taken(formats: Seq<Seq<char>>, a: Seq<char>)
    requires
        formats.len() > 1,
    ensures
        holds(formats, lower(trim(a))) && lower(trim(a)).len() > 0 ==> format_taken(formats, Some(a)) == (
            lower(trim(a)),
            false,
        ),
        lower(trim(a)) == "all"@ ==> format_taken(formats, Some(a)) == ("all"@, false),
        lower(trim(a)).len() == 0 ==> format_taken(formats, Some(a)) == (formats[0], false),
        format_taken(formats, None) == (formats[0], false),
        format_taken(formats, Some(a)).1 ==> !holds(formats, lower(trim(a))) && format_taken(formats, Some(a)).0 == formats[0],
{
    reveal_strlit("all");
}

/// Where an item's files are asked for: of ccMixter by the number behind the prefix, of the archive
/// by the identifier.
pub proof fn law_item_is_asked_for(ident: Seq<char>, id: Seq<char>)
    ensures
        meta_address("ccmixter:"@ + id) == "https://ccmixter.org/api/query?f=json&ids="@ + id,
        !starts(ident, "ccmixter:"@) ==> meta_address(ident) == "https://archive.org/metadata/"@ + path_text(ident),
{
    crate::text::law_has_is_contains(Seq::empty(), "ccmixter:"@, id);
    assert(("ccmixter:"@ + id).skip("ccmixter:"@.len() as int) =~= id);
}

/// The formats of an item are those of the names of its files, all of them in their order; the
/// names of what is downloaded are the files' own.
pub proof fn law_names_are_taken(files: Seq<JsonV>, v: JsonV, n: Seq<char>, ident: Seq<char>, text: Seq<char>, meta: JsonV, audio: Seq<char>, ts: Seq<TargetV>, i: int)
    ensures
        v.str_at("name"@) == Some(n) ==> file_names(files.push(v)) == file_names(files).push(n),
        v.str_at("name"@) is None ==> file_names(files.push(v)) == file_names(files),
        file_names(Seq::empty()).len() == 0,
        target_names(ts).len() == ts.len(),
        0 <= i < ts.len() ==> target_names(ts)[i] == ts[i].name,
        !starts(ident, "ccmixter:"@) && json_parsed(text) == Ok::<JsonV, Seq<char>>(meta) ==> item_formats(ident, text, audio)
            == Ok::<Seq<Seq<char>>, Seq<char>>(formats_of(file_names(meta.items_at("files"@)))),
        starts(ident, "ccmixter:"@) && cc_picked(ident, None, text, audio) == Ok::<Seq<TargetV>, Seq<char>>(ts) ==> item_formats(
            ident,
            text,
            audio,
        ) == Ok::<Seq<Seq<char>>, Seq<char>>(formats_of(target_names(ts))),
        !starts(ident, "ccmixter:"@) && json_parsed(text) is Err ==> item_formats(ident, text, audio) is Err,
{
    assert(files.push(v).drop_last() =~= files);
}

/// Downloads go into the directory that is set, else into the usual one below the home directory;
/// the limit is the number that is set, and there is none where no number is.
pub proof fn law_settings_are_taken(dir: Seq<char>, home: Seq<char>, below: Seq<char>, n: int, env: Seq<char>)
    requires
        0 <= n <= u64::MAX,
    ensures
        dir_for(Some(dir), home, below) == dir,
        dir_for(None, home, below) == join_path(home, below),
        size_cap(Some(dec(n))) == n,
        size_cap(None) == 0,
        int_in(env, 0, u64::MAX as int) is None ==> size_cap(Some(env)) == 0,
{
    crate::nums::law_dec_reads_back(n, 0, u64::MAX as int);
}

/// What is rounded is a whole number that is nearest, and of two that are as near the even one.
pub proof fn law_rounding(n: int, d: int)
    requires
        n >= 0,
        d > 0,
    ensures
        -d <= 2 * (half_even(n, d) * d - n) <= d,
        2 * (half_even(n, d) * d - n) == d || 2 * (half_even(n, d) * d - n) == -d ==> half_even(n, d) % 2 == 0,
{
    let q = n / d;
    vstd::arithmetic::div_mod::lemma_fundamental_div_mod(n, d);
    assert(q * d == d * q) by (nonlinear_arith);
    assert((q + 1) * d == d * q + d) by (nonlinear_arith);
}

/// A size is shown in bytes below a kilobyte, in whole kilobytes below a megabyte, in tenths of a
/// megabyte below a gigabyte, and in hundredths of a gigabyte from there on: the number that is
/// nearest to the size, a kilobyte being 1024 bytes.
pub proof fn law_size_is_shown(n: u64) -> (k: int)
    ensures
        n < 1024 ==> size_text(n) == dec(n as int) + " B"@,
        1024 <= n < 0x10_0000 ==> size_text(n) == dec(k) + " KB"@ && -512 <= 1024 * k - n <= 512,
        0x10_0000 <= n < 0x4000_0000 ==> size_text(n) == dec(k / 10) + "."@ + dec(k % 10) + " MB"@ && -0x10_0000 <= 2 * (0x10_0000 * k
            - 10 * n) <= 0x10_0000,
        0x4000_0000 <= n < 0x20_0000_0000_0000 ==> size_text(n) == dec(k / 100) + "."@ + two_digits(k % 100) + " GB"@
            && -0x4000_0000 <= 2 * (0x4000_0000 * k - 100 * n) <= 0x4000_0000,
{
    if n < 1024 {
        n as int
    } else if n < 0x10_0000 {
        law_rounding(n as int, 1024);
        half_even(n as int, 1024)
    } else if n < 0x4000_0000 {
        law_rounding(10 * n, 0x10_0000);
        half_even(10 * n, 0x10_0000)
    } else if n < 0x20_0000_0000_0000 {
        law_rounding(100 * n, 0x4000_0000);
        law_rounding(n as int, 1);
        half_even(100 * n, 0x4000_0000)
    } else {
        0
    }
}

/// The format that is taken where there is no choice: all of none, the only one of one, and the
/// first where no answer is given; an answer that is none of them is the first one too, which is
/// told.
pub proof fn law_format_without_choice(f: Seq<char>, formats: Seq<Seq<char>>, answer: Seq<char>)
    ensures
        format_taken(Seq::empty(), Some(answer)) == ("all"@, false),
        format_taken(seq![f], Some(answer)) == (f, false),
        formats.len() > 1 ==> format_taken(formats, None) == (formats[0], false),
        formats.len() > 1 && trim(answer).len() > 0 && lower(trim(answer)).len() > 0 && lower(trim(answer)) != "all"@
            && !formats.contains(lower(trim(answer))) ==> format_taken(formats, Some(answer)) == (formats[0], true),
{
    let t = lower(trim(answer));
    if holds(formats, t) {
        let i = choose|i: int| 0 <= i < formats.len() && #[trigger] formats[i] == t;
        assert(formats.contains(t));
    }
}

/// A download that is allowed goes on file by file, in their order, and ends when every file was
/// tried; it then tells how many of them came, and into which directory.
pub proof fn law_download_goes_on(ident: Seq<char>, targets: Seq<TargetV>, cap: u64, results: Seq<bool>)
    requires
        cleared(ident, targets, cap, true) !is Refused,
    ensures
        results.len() < targets.len() ==> work_on(ident, targets, cap, true, Some(true), results) == WorkV::Fetch(
            results.len() as int,
        ),
        results.len() == targets.len() ==> work_on(ident, targets, cap, true, Some(true), results) == WorkV::Done(
            good_count(results) as int,
            targets.len() as int,
            targets[0].dir,
        ),
{
}

} // verus!
