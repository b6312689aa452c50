//! Free and legal music: the Internet Archive and ccMixter.
//!
//! Here stand the searches, what their results mean, which files an item offers and which
//! of them are fetched. The fetching itself belongs to the caller, who hands the texts that
//! came back.

use vstd::prelude::*;
use crate::json::{json_parsed, jsons, parse, parse_or_null, parsed_or_null, texts, texts_of, Json, JsonV};
use crate::nums::{dec, dec_u64, dec_usize, int_in, pad, pad_left, parse_u64, parse_usize};
use crate::text::{
    blank, cat2, cat3, cat4, cat5, cat7, copy_list, copy_tail, drop_empty, filled, first_n, has, is_blank, join, joined,
    lower, lowered, opt_as_str, opt_str, opt_view, pair_view, replace_char, same, starts, starts_with, take_chars,
    trim, trimmed, views, words, words_of,
};
use crate::urls::{percent_encode, query_text, unpercent};

verus! {

/// How many results a page shows.
pub const PAGE_SIZE: u32 = 20;

/// How close to the end of the list the next page is fetched.
pub const PREFETCH_WITHIN: usize = 6;

// ---- kinds ----

/// The media type of a kind, and what narrows a search to it.
pub open spec fn kind_of(k: Seq<char>) -> Option<(Seq<char>, Seq<char>)> {
    if k == "music"@ {
        Some(("audio"@, "(subject:(music) OR collection:(opensource_audio) OR collection:(netlabels))"@))
    } else if k == "tracks"@ || k == "songs"@ {
        Some(("audio"@, "(subject:(music) OR collection:(opensource_audio))"@))
    } else if k == "album"@ {
        Some(("audio"@, "(subject:(album) OR subject:(music) OR collection:(netlabels))"@))
    } else if k == "podcast"@ || k == "podcasts"@ || k == "shows"@ {
        Some(("audio"@, "(subject:(podcast) OR collection:(podcasts) OR title:(podcast))"@))
    } else if k == "audiobook"@ || k == "audiobooks"@ {
        Some(("audio"@, "(collection:(librivoxaudio) OR subject:(audiobook) OR creator:(LibriVox))"@))
    } else if k == "live"@ || k == "etree"@ || k == "lma"@ || k == "jam"@ {
        Some(("etree"@, "collection:(etree)"@))
    } else if k == "movie"@ {
        Some(("movies"@, "(subject:(feature) OR subject:(film) OR collection:(feature_films))"@))
    } else if k == "movies"@ {
        Some(("movies"@, "(subject:(feature) OR collection:(feature_films))"@))
    } else if k == "films"@ {
        Some(("movies"@, "(subject:(film) OR collection:(feature_films))"@))
    } else if k == "series"@ {
        Some(("movies"@, "(subject:(series) OR subject:(television) OR subject:(episode))"@))
    } else if k == "video"@ {
        Some(("movies"@, ""@))
    } else if k == "documentary"@ || k == "documentaries"@ {
        Some(("movies"@, "(subject:(documentary) OR collection:(documentary))"@))
    } else {
        None
    }
}

fn kind_from(k: &str) -> (r: Option<(String, String)>)
    ensures
        pair_view(r) == kind_of(k@),
{
    if same(k, "music") {
        Some(("audio".to_owned(), "(subject:(music) OR collection:(opensource_audio) OR collection:(netlabels))".to_owned()))
    } else if same(k, "tracks") || same(k, "songs") {
        Some(("audio".to_owned(), "(subject:(music) OR collection:(opensource_audio))".to_owned()))
    } else if same(k, "album") {
        Some(("audio".to_owned(), "(subject:(album) OR subject:(music) OR collection:(netlabels))".to_owned()))
    } else if same(k, "podcast") || same(k, "podcasts") || same(k, "shows") {
        Some(("audio".to_owned(), "(subject:(podcast) OR collection:(podcasts) OR title:(podcast))".to_owned()))
    } else if same(k, "audiobook") || same(k, "audiobooks") {
        Some(("audio".to_owned(), "(collection:(librivoxaudio) OR subject:(audiobook) OR creator:(LibriVox))".to_owned()))
    } else if same(k, "live") || same(k, "etree") || same(k, "lma") || same(k, "jam") {
        Some(("etree".to_owned(), "collection:(etree)".to_owned()))
    } else if same(k, "movie") {
        Some(("movies".to_owned(), "(subject:(feature) OR subject:(film) OR collection:(feature_films))".to_owned()))
    } else if same(k, "movies") {
        Some(("movies".to_owned(), "(subject:(feature) OR collection:(feature_films))".to_owned()))
    } else if same(k, "films") {
        Some(("movies".to_owned(), "(subject:(film) OR collection:(feature_films))".to_owned()))
    } else if same(k, "series") {
        Some(("movies".to_owned(), "(subject:(series) OR subject:(television) OR subject:(episode))".to_owned()))
    } else if same(k, "video") {
        Some(("movies".to_owned(), "".to_owned()))
    } else if same(k, "documentary") || same(k, "documentaries") {
        Some(("movies".to_owned(), "(subject:(documentary) OR collection:(documentary))".to_owned()))
    } else {
        None
    }
}

/// The media type of a kind, in any case, and what narrows a search to it.
pub fn kind_map(kind: &str) -> (r: Option<(String, String)>)
    ensures
        pair_view(r) == kind_of(lower(kind@)),
{
    kind_from(lowered(kind).as_str())
}

/// A word for ccMixter.
pub open spec fn is_cc_word(k: Seq<char>) -> bool {
    k == "ccmixter"@ || k == "cc"@ || k == "remix"@ || k == "remixes"@ || k == "mixter"@
}

/// Whether a kind means ccMixter.
pub fn is_ccmixter_kind(s: &str) -> (r: bool)
    ensures
        r == is_cc_word(lower(s@)),
{
    let k = lowered(s);
    let k = k.as_str();
    same(k, "ccmixter") || same(k, "cc") || same(k, "remix") || same(k, "remixes") || same(k, "mixter")
}

/// Whether a word names a kind.
pub open spec fn is_kind(s: Seq<char>) -> bool {
    let lo = lower(s);
    kind_of(lower(lo)) is Some || lo == "audio"@ || lo == "films"@ || is_cc_word(lower(lo))
}

/// Whether a word names a kind.
pub fn is_kind_token(s: &str) -> (r: bool)
    ensures
        r == is_kind(s@),
{
    let lo = lowered(s);
    let lo = lo.as_str();
    kind_map(lo).is_some() || same(lo, "audio") || same(lo, "films") || is_ccmixter_kind(lo)
}

/// Whether an identifier is one of ccMixter's.
pub open spec fn is_cc_ident(ident: Seq<char>) -> bool {
    starts(ident, "ccmixter:"@)
}

/// Whether an identifier is one of ccMixter's.
pub fn is_ccmixter_ident(ident: &str) -> (r: bool)
    ensures
        r == is_cc_ident(ident@),
{
    starts_with(ident, "ccmixter:")
}

/// Whether a kind, if there is one, means ccMixter.
pub open spec fn on_ccmixter(kind: Option<Seq<char>>) -> bool {
    match kind {
        Some(k) => is_cc_word(lower(k)),
        None => false,
    }
}

fn kind_is_ccmixter(kind: Option<&str>) -> (r: bool)
    ensures
        r == on_ccmixter(opt_str(kind)),
{
    match kind {
        Some(k) => is_ccmixter_kind(k),
        None => false,
    }
}

// ---- queries ----

/// The parts of a query that a kind asks for.
pub open spec fn kind_parts(kind: Option<Seq<char>>) -> Seq<Seq<char>> {
    match kind {
        Some(k) => match kind_of(lower(lower(k))) {
            Some((mt, hint)) => if hint.len() == 0 {
                seq!["mediatype:("@ + mt + ")"@]
            } else {
                seq!["mediatype:("@ + mt + ")"@, hint]
            },
            None => if lower(k) == "audio"@ {
                seq!["mediatype:(audio)"@]
            } else if lower(k) == "movies"@ || lower(k) == "films"@ {
                seq!["mediatype:(movies)"@]
            } else {
                Seq::empty()
            },
        },
        None => Seq::empty(),
    }
}

/// The words of a query: a kind that is none counts as a word.
pub open spec fn query_words(kind: Option<Seq<char>>, terms: Seq<Seq<char>>) -> Seq<Seq<char>> {
    match kind {
        Some(k) => if is_kind(k) {
            terms
        } else {
            terms.insert(0, k)
        },
        None => terms,
    }
}

/// The part of a query that the words ask for; their quotes become spaces.
pub open spec fn words_part(words: Seq<Seq<char>>) -> Seq<char> {
    let esc = join(words, " "@).map_values(|c: char| if c == '"' { ' ' } else { c });
    "(title:("@ + esc + ") OR subject:("@ + esc + ") OR description:("@ + esc + ") OR creator:("@ + esc + "))"@
}

/// The query for a kind and terms; without either, for audio.
pub open spec fn archive_query(kind: Option<Seq<char>>, terms: Seq<Seq<char>>) -> Seq<char> {
    let words = query_words(kind, terms);
    let parts = if words.len() == 0 {
        kind_parts(kind)
    } else {
        kind_parts(kind).push(words_part(words))
    };
    join(
        if parts.len() == 0 {
            seq!["mediatype:(audio)"@]
        } else {
            parts
        },
        " AND "@,
    )
}

fn push_text(v: &mut Vec<String>, s: String)
    ensures
        views(final(v)@) == views(old(v)@).push(s@),
        final(v).len() == old(v).len() + 1,
{
    v.push(s);
    assert(views(v@) == views(old(v)@).push(s@));
}

fn no_texts() -> (r: Vec<String>)
    ensures
        views(r@) == Seq::<Seq<char>>::empty(),
        r.len() == 0,
{
    let r: Vec<String> = Vec::new();
    assert(views(r@) == Seq::<Seq<char>>::empty());
    r
}

/// The query for a kind and terms.
pub fn build_query(kind: Option<&str>, terms: &Vec<String>) -> (r: String)
    ensures
        r@ == archive_query(opt_str(kind), views(terms@)),
{
    let mut parts = no_texts();
    let mut words = copy_list(terms);
    match kind {
        Some(k) => {
            let kl = lowered(k);
            match kind_map(kl.as_str()) {
                Some((mt, hint)) => {
                    push_text(&mut parts, cat3("mediatype:(", mt.as_str(), ")"));
                    if !hint.as_str().is_empty() {
                        push_text(&mut parts, hint);
                    }
                },
                None => {
                    if same(kl.as_str(), "audio") {
                        push_text(&mut parts, "mediatype:(audio)".to_owned());
                    } else if same(kl.as_str(), "movies") || same(kl.as_str(), "films") {
                        push_text(&mut parts, "mediatype:(movies)".to_owned());
                    }
                },
            }
            if !is_kind_token(k) {
                words.insert(0, k.to_owned());
                assert(views(words@) == views(terms@).insert(0, k@));
            }
        },
        None => {},
    }
    assert(views(parts@) == kind_parts(opt_str(kind)));
    assert(views(words@) == query_words(opt_str(kind), views(terms@)));
    assert(views(words@).len() == words.len());
    if words.len() > 0 {
        let esc = replace_char(joined(&words, " ").as_str(), '"', ' ');
        proof {
            let all = join(views(words@), " "@);
            assert(esc@ == all.map_values(|c: char| if c == '"' { ' ' } else { c }));
        }
        let e = esc.as_str();
        let head = cat5("(title:(", e, ") OR subject:(", e, ") OR description:(");
        push_text(&mut parts, cat5(head.as_str(), e, ") OR creator:(", e, "))"));
    }
    assert(views(parts@).len() == parts.len());
    if parts.len() == 0 {
        push_text(&mut parts, "mediatype:(audio)".to_owned());
        assert(views(parts@) == seq!["mediatype:(audio)"@]);
    }
    joined(&parts, " AND ")
}

// ---- results ----

/// Where a result comes from.
#[derive(Debug, Clone, Copy, PartialEq, Eq, Structural)]
pub enum Source {
    Archive,
    CcMixter,
}

impl Default for Source {
    fn default() -> (s: Self)
        ensures
            s == Source::Archive,
    {
        Source::Archive
    }
}

/// A result of a search.
pub struct Doc {
    pub identifier: String,
    pub title: String,
    pub creator: String,
    pub year: String,
    pub mediatype: String,
    pub downloads: String,
    pub source: Source,
}

/// The model of a [`Doc`].
#[verifier::ext_equal]
pub struct DocV {
    pub identifier: Seq<char>,
    pub title: Seq<char>,
    pub creator: Seq<char>,
    pub year: Seq<char>,
    pub mediatype: Seq<char>,
    pub downloads: Seq<char>,
    pub source: Source,
}

impl View for Doc {
    type V = DocV;

    open spec fn view(&self) -> DocV {
        DocV {
            identifier: self.identifier@,
            title: self.title@,
            creator: self.creator@,
            year: self.year@,
            mediatype: self.mediatype@,
            downloads: self.downloads@,
            source: self.source,
        }
    }
}

/// The models of a list of results.
pub open spec fn docs_view(v: Seq<Doc>) -> Seq<DocV> {
    Seq::new(v.len(), |i: int| v[i]@)
}

impl Doc {
    /// A copy.
    pub fn copy(&self) -> (d: Doc)
        ensures
            d@ == self@,
    {
        Doc {
            identifier: self.identifier.clone(),
            title: self.title.clone(),
            creator: self.creator.clone(),
            year: self.year.clone(),
            mediatype: self.mediatype.clone(),
            downloads: self.downloads.clone(),
            source: self.source,
        }
    }
}

/// A member as text: a text itself, of a list its first two texts, a number as it is
/// written; else nothing.
pub open spec fn member_text(v: JsonV, key: Seq<char>) -> Seq<char> {
    match v.get(key) {
        Some(JsonV::Str(s)) => s,
        Some(JsonV::Arr(a)) => join(
            texts(a).take(
                if texts(a).len() < 2 {
                    texts(a).len() as int
                } else {
                    2
                },
            ),
            ", "@,
        ),
        Some(JsonV::Num(n)) => n.text,
        _ => ""@,
    }
}

/// A member as text.
pub fn first_str(v: &Json, key: &str) -> (r: String)
    ensures
        r@ == member_text(v@, key@),
{
    match v.get(key) {
        Some(Json::Str(s)) => s.clone(),
        Some(Json::Arr(a)) => {
            proof {
                crate::json::lemma_arr(*a);
            }
            let mut t = texts_of(a);
            let ghost all = views(t@);
            assert(all.len() == t.len());
            if t.len() > 2 {
                t.truncate(2);
            }
            assert(views(t@) == all.take(if all.len() < 2 { all.len() as int } else { 2 }));
            joined(&t, ", ")
        },
        Some(Json::Num(n)) => n.text.clone(),
        _ => "".to_owned(),
    }
}

/// A result as the archive describes it.
pub open spec fn doc_of(v: JsonV) -> DocV {
    DocV {
        identifier: member_text(v, "identifier"@),
        title: member_text(v, "title"@),
        creator: member_text(v, "creator"@),
        year: member_text(v, "year"@),
        mediatype: member_text(v, "mediatype"@),
        downloads: member_text(v, "downloads"@),
        source: Source::Archive,
    }
}

/// A result as the archive describes it.
pub fn to_doc(v: &Json) -> (d: Doc)
    ensures
        d@ == doc_of(v@),
{
    Doc {
        identifier: first_str(v, "identifier"),
        title: first_str(v, "title"),
        creator: first_str(v, "creator"),
        year: first_str(v, "year"),
        mediatype: first_str(v, "mediatype"),
        downloads: first_str(v, "downloads"),
        source: Source::Archive,
    }
}

/// The number of an upload, as a number or as text.
pub open spec fn upload_id(v: JsonV) -> Option<u64> {
    match v.get("upload_id"@) {
        Some(id) => match id.as_u64() {
            Some(n) => Some(n),
            None => match id.as_str() {
                Some(s) => match int_in(s, 0, u64::MAX as int) {
                    Some(n) => Some(n as u64),
                    None => None,
                },
                None => None,
            },
        },
        None => None,
    }
}

/// A result as ccMixter describes it, if it is numbered.
pub open spec fn cc_doc_of(v: JsonV) -> Option<DocV> {
    match upload_id(v) {
        Some(id) => Some(
            DocV {
                identifier: "ccmixter:"@ + dec(id as int),
                title: member_text(v, "upload_name"@),
                creator: if member_text(v, "user_real_name"@).len() == 0 {
                    member_text(v, "user_name"@)
                } else {
                    member_text(v, "user_real_name"@)
                },
                year: ""@,
                mediatype: "ccmixter"@,
                downloads: member_text(v, "upload_num_scores"@),
                source: Source::CcMixter,
            },
        ),
        None => None,
    }
}

fn read_upload_id(v: &Json) -> (r: Option<u64>)
    ensures
        r == upload_id(v@),
{
    match v.get("upload_id") {
        Some(id) => match id.as_u64() {
            Some(n) => Some(n),
            None => match id.as_str() {
                Some(s) => parse_u64(s),
                None => None,
            },
        },
        None => None,
    }
}

/// A result as ccMixter describes it, if it is numbered.
pub fn cc_to_doc(v: &Json) -> (r: Option<Doc>)
    ensures
        match r {
            Some(d) => cc_doc_of(v@) == Some(d@),
            None => cc_doc_of(v@) is None,
        },
{
    let id: u64 = match read_upload_id(v) {
        Some(n) => n,
        None => {
            return None;
        },
    };
    let full_name = first_str(v, "user_real_name");
    let creator = if full_name.as_str().is_empty() {
        first_str(v, "user_name")
    } else {
        full_name
    };
    Some(
        Doc {
            identifier: cat2("ccmixter:", dec_u64(id).as_str()),
            title: first_str(v, "upload_name"),
            creator,
            year: "".to_owned(),
            mediatype: "ccmixter".to_owned(),
            downloads: first_str(v, "upload_num_scores"),
            source: Source::CcMixter,
        },
    )
}

/// The results that ccMixter lists.
pub open spec fn cc_docs(a: Seq<JsonV>) -> Seq<DocV>
    decreases a.len(),
{
    if a.len() == 0 {
        Seq::empty()
    } else {
        match cc_doc_of(a.last()) {
            Some(d) => cc_docs(a.drop_last()).push(d),
            None => cc_docs(a.drop_last()),
        }
    }
}

/// Whether a result of that identifier is in the list.
pub open spec fn has_ident(docs: Seq<DocV>, ident: Seq<char>) -> bool {
    exists|i: int| 0 <= i < docs.len() && (#[trigger] docs[i]).identifier == ident
}

/// A list with more results behind it, but for those whose identifiers are there.
pub open spec fn with_unique(docs: Seq<DocV>, more: Seq<DocV>) -> Seq<DocV>
    decreases more.len(),
{
    if more.len() == 0 {
        docs
    } else {
        let front = with_unique(docs, more.drop_last());
        if has_ident(front, more.last().identifier) {
            front
        } else {
            front.push(more.last())
        }
    }
}

fn docs_have(docs: &Vec<Doc>, ident: &str) -> (r: bool)
    ensures
        r == has_ident(docs_view(docs@), ident@),
{
    for i in 0..docs.len()
        invariant
            forall|j: int| 0 <= j < i ==> (#[trigger] docs_view(docs@)[j]).identifier != ident@,
    {
        if same(docs[i].identifier.as_str(), ident) {
            assert(docs_view(docs@)[i as int].identifier == ident@);
            return true;
        }
        assert(docs_view(docs@)[i as int].identifier != ident@);
    }
    false
}

/// Puts results behind a list, but for those whose identifiers are there.
pub fn append_unique(dst: &mut Vec<Doc>, src: &Vec<Doc>)
    ensures
        docs_view(final(dst)@) == with_unique(docs_view(old(dst)@), docs_view(src@)),
{
    let ghost all = docs_view(src@);
    let ghost start = docs_view(dst@);
    assert(all.take(0) == Seq::<DocV>::empty());
    for i in 0..src.len()
        invariant
            all == docs_view(src@),
            docs_view(dst@) == with_unique(start, all.take(i as int)),
    {
        proof {
            assert(all.take(i + 1).drop_last() == all.take(i as int));
            assert(all.take(i + 1).last() == src@[i as int]@);
        }
        let ghost before = docs_view(dst@);
        if !docs_have(&*dst, src[i].identifier.as_str()) {
            dst.push(src[i].copy());
            assert(docs_view(dst@) == before.push(src@[i as int]@));
        }
    }
    assert(all.take(src.len() as int) == all);
}

// ---- searching ----

/// `n` brought into the range from 1 to 50.
pub open spec fn row_count(n: u32) -> int {
    if n < 1 {
        1
    } else if n > 50 {
        50
    } else {
        n as int
    }
}

fn clamp_rows(n: u32) -> (r: u32)
    ensures
        r == row_count(n),
        1 <= r <= 50,
{
    if n < 1 {
        1
    } else if n > 50 {
        50
    } else {
        n
    }
}

/// The address of a search of the archive.
pub open spec fn search_address(query: Seq<char>, rows: u32, page: u32) -> Seq<char> {
    "https://archive.org/advancedsearch.php?q="@ + query_text(query) + "&rows="@ + dec(row_count(rows)) + "&page="@ + dec(
        page as int,
    ) + "&output=json&sort%5B%5D=downloads+desc"@
        + "&fl%5B%5D=identifier&fl%5B%5D=title&fl%5B%5D=creator&fl%5B%5D=year&fl%5B%5D=mediatype&fl%5B%5D=downloads"@
}

/// The address of a search of the archive.
pub fn search_url(query: &str, rows: u32, page: u32) -> (s: String)
    ensures
        s@ == search_address(query@, rows, page),
{
    let head = cat7(
        "https://archive.org/advancedsearch.php?q=",
        percent_encode(query).as_str(),
        "&rows=",
        dec_u64(clamp_rows(rows) as u64).as_str(),
        "&page=",
        dec_u64(page as u64).as_str(),
        "&output=json&sort%5B%5D=downloads+desc",
    );
    cat2(
        head.as_str(),
        "&fl%5B%5D=identifier&fl%5B%5D=title&fl%5B%5D=creator&fl%5B%5D=year&fl%5B%5D=mediatype&fl%5B%5D=downloads",
    )
}

/// What the archive found: the results of the page, and how many there are in all.
pub open spec fn found_in(v: JsonV) -> (Seq<DocV>, u64) {
    let resp = match v.get("response"@) {
        Some(r) => r,
        None => JsonV::Null,
    };
    let docs = match resp.arr_at("docs"@) {
        Some(a) => a.map_values(|d: JsonV| doc_of(d)),
        None => Seq::empty(),
    };
    (
        docs,
        match resp.u64_at("numFound"@) {
            Some(n) => n,
            None => 0,
        },
    )
}

/// The results of a search of the archive, or why its answer cannot be read.
pub open spec fn search_result(text: Seq<char>) -> Result<(Seq<DocV>, u64), Seq<char>> {
    match json_parsed(text) {
        Ok(v) => Ok(found_in(v)),
        Err(e) => Err("json: "@ + e),
    }
}

fn docs_from(a: &Vec<Json>) -> (r: Vec<Doc>)
    ensures
        docs_view(r@) == jsons(a@).map_values(|d: JsonV| doc_of(d)),
{
    let mut r: Vec<Doc> = Vec::new();
    for i in 0..a.len()
        invariant
            r.len() == i,
            forall|k: int| 0 <= k < i ==> (#[trigger] r@[k])@ == doc_of(a@[k]@),
    {
        r.push(to_doc(&a[i]));
    }
    assert(docs_view(r@) == jsons(a@).map_values(|d: JsonV| doc_of(d)));
    r
}

/// The results of a search of the archive, from the text that came back.
pub fn search(text: &str) -> (r: Result<(Vec<Doc>, u64), String>)
    ensures
        match r {
            Ok((docs, n)) => search_result(text@) == Ok::<(Seq<DocV>, u64), Seq<char>>((docs_view(docs@), n)),
            Err(e) => search_result(text@) == Err::<(Seq<DocV>, u64), Seq<char>>(e@),
        },
{
    match parse(text) {
        Ok(v) => {
            let none: Vec<Doc> = Vec::new();
            assert(docs_view(none@) == Seq::<DocV>::empty());
            match v.get("response") {
                Some(resp) => {
                    let n: u64 = match resp.u64_at("numFound") {
                        Some(n) => n,
                        None => 0,
                    };
                    match resp.arr_at("docs") {
                        Some(a) => Ok((docs_from(a), n)),
                        None => Ok((none, n)),
                    }
                },
                None => Ok((none, 0)),
            }
        },
        Err(e) => Err(cat2("json: ", e.as_str())),
    }
}

/// Where a page of results is fetched.
pub enum SearchRequest {
    /// At this address of the archive.
    Archive(String),
    /// From ccMixter, in several goes.
    CcMixter(CcSearch),
}

/// A search of ccMixter: the address that its requests begin with, the results so far, and
/// the rows that are still to be fetched.
pub struct CcSearch {
    pub base: String,
    pub docs: Vec<Doc>,
    pub off: u32,
    pub end: u32,
}

/// The model of a [`CcSearch`].
#[verifier::ext_equal]
pub struct CcSearchV {
    pub base: Seq<char>,
    pub docs: Seq<DocV>,
    pub off: int,
    pub end: int,
}

impl View for CcSearch {
    type V = CcSearchV;

    open spec fn view(&self) -> CcSearchV {
        CcSearchV { base: self.base@, docs: docs_view(self.docs@), off: self.off as int, end: self.end as int }
    }
}

/// What the requests of a search of ccMixter begin with.
pub open spec fn cc_base(q: Seq<char>) -> Seq<char> {
    let base = "https://ccmixter.org/api/query?datasource=uploads&search_type=any"@;
    if blank(q) {
        base
    } else {
        base + "&search="@ + query_text(trim(q))
    }
}

/// How many results ccMixter counts: a number, or the first one of a list.
pub open spec fn cc_count(text: Seq<char>) -> u64 {
    match parsed_or_null(text) {
        JsonV::Num(n) => match n.uint {
            Some(u) => u,
            None => 0,
        },
        JsonV::Arr(a) => if a.len() > 0 {
            match a[0].as_u64() {
                Some(u) => u,
                None => 0,
            }
        } else {
            0
        },
        _ => 0,
    }
}

impl CcSearchV {
    /// How many rows the next request asks for: ten at most.
    pub open spec fn limit(self) -> int {
        if self.end - self.off < 10 {
            self.end - self.off
        } else {
            10
        }
    }

    /// The address of the next request.
    pub open spec fn address(self) -> Seq<char> {
        self.base + "&f=json&limit="@ + dec(self.limit()) + "&offset="@ + dec(self.off)
    }

    /// The search with an answer taken, and whether it goes on: not once the rows are there,
    /// nor after an answer that is short.
    pub open spec fn taken(self, v: JsonV) -> (CcSearchV, bool) {
        let a = v.items();
        let next = CcSearchV { docs: self.docs + cc_docs(a), off: self.off + self.limit(), ..self };
        (next, next.off < next.end && (a.len() as u32) >= self.limit())
    }
}

fn cc_docs_of(a: &Vec<Json>) -> (r: Vec<Doc>)
    ensures
        docs_view(r@) == cc_docs(jsons(a@)),
{
    let mut r: Vec<Doc> = Vec::new();
    let ghost all = jsons(a@);
    assert(docs_view(r@) == cc_docs(all.take(0)));
    for i in 0..a.len()
        invariant
            all == jsons(a@),
            docs_view(r@) == cc_docs(all.take(i as int)),
    {
        proof {
            assert(all.take(i + 1).drop_last() == all.take(i as int));
            assert(all.take(i + 1).last() == a@[i as int]@);
        }
        let ghost before = docs_view(r@);
        match cc_to_doc(&a[i]) {
            Some(d) => {
                r.push(d);
                assert(docs_view(r@) == before.push(d@));
            },
            None => {},
        }
    }
    assert(all.take(a.len() as int) == all);
    r
}

impl CcSearch {
    /// A search that begins.
    pub fn begin(q: &str, rows: u32, offset: u32) -> (c: CcSearch)
        requires
            offset + rows <= u32::MAX,
        ensures
            c@ == (CcSearchV { base: cc_base(q@), docs: Seq::empty(), off: offset as int, end: offset + rows }),
    {
        let base = if is_blank(q) {
            "https://ccmixter.org/api/query?datasource=uploads&search_type=any".to_owned()
        } else {
            cat3(
                "https://ccmixter.org/api/query?datasource=uploads&search_type=any",
                "&search=",
                percent_encode(trimmed(q).as_str()).as_str(),
            )
        };
        let c = CcSearch { base, docs: Vec::new(), off: offset, end: offset + rows };
        assert(c@.docs == Seq::<DocV>::empty());
        c
    }

    /// The address at which the results are counted.
    pub fn count_url(&self) -> (s: String)
        ensures
            s@ == self@.base + "&f=count"@,
    {
        cat2(self.base.as_str(), "&f=count")
    }

    /// Whether rows are left to be fetched.
    pub fn wants(&self) -> (b: bool)
        ensures
            b == (self@.off < self@.end),
    {
        self.off < self.end
    }

    /// The address of the next rows.
    pub fn page_url(&self) -> (s: String)
        requires
            self@.off < self@.end,
        ensures
            s@ == self@.address(),
    {
        let lim: u32 = if self.end - self.off < 10 {
            self.end - self.off
        } else {
            10
        };
        cat5(
            self.base.as_str(),
            "&f=json&limit=",
            dec_u64(lim as u64).as_str(),
            "&offset=",
            dec_u64(self.off as u64).as_str(),
        )
    }

    /// Takes the next rows; says whether to go on, or why they cannot be read.
    pub fn search_ccmixter(&mut self, text: &str) -> (r: Result<bool, String>)
        requires
            old(self)@.off < old(self)@.end,
        ensures
            match json_parsed(text@) {
                Ok(v) => r is Ok && final(self)@ == old(self)@.taken(v).0 && r->Ok_0 == old(self)@.taken(v).1,
                Err(e) => r is Err && final(self)@ == old(self)@ && r->Err_0@ == "json: "@ + e,
            },
    {
        let lim: u32 = if self.end - self.off < 10 {
            self.end - self.off
        } else {
            10
        };
        match parse(text) {
            Ok(v) => {
                let ghost before = self@.docs;
                let mut n: usize = 0;
                match v.as_arr() {
                    Some(a) => {
                        n = a.len();
                        let mut more = cc_docs_of(a);
                        let ghost new = docs_view(more@);
                        self.docs.append(&mut more);
                        assert(self@.docs == before + new);
                        assert(jsons(a@).len() == a.len());
                    },
                    None => {
                        assert(before + cc_docs(Seq::<JsonV>::empty()) == before);
                    },
                }
                self.off = self.off + lim;
                Ok(self.off < self.end && (n as u32) >= lim)
            },
            Err(e) => Err(cat2("json: ", e.as_str())),
        }
    }
}

/// How many results ccMixter counts, from the text that came back.
pub fn cc_total(text: &str) -> (n: u64)
    ensures
        n == cc_count(text@),
{
    match parse_or_null(text) {
        Json::Num(n) => match n.uint {
            Some(u) => u,
            None => 0,
        },
        Json::Arr(a) => {
            proof {
                crate::json::lemma_arr(a);
            }
            if a.len() > 0 {
                assert(jsons(a@)[0] == a@[0]@);
                match a[0].as_u64() {
                    Some(u) => u,
                    None => 0,
                }
            } else {
                0
            }
        },
        _ => 0,
    }
}

/// `page`, counted from 1.
pub open spec fn page_number(page: u32) -> int {
    if page < 1 {
        1
    } else {
        page as int
    }
}

/// Where a page of results is fetched: a kind that means ccMixter there, any other from the
/// archive.
pub fn search_page(kind: Option<&str>, terms: &Vec<String>, rows: u32, page: u32) -> (r: SearchRequest)
    requires
        on_ccmixter(opt_str(kind)) ==> page_number(page) * row_count(rows) <= u32::MAX,
    ensures
        match r {
            SearchRequest::Archive(url) => !on_ccmixter(opt_str(kind)) && url@ == search_address(
                archive_query(opt_str(kind), views(terms@)),
                row_count(rows) as u32,
                page_number(page) as u32,
            ),
            SearchRequest::CcMixter(c) => on_ccmixter(opt_str(kind)) && c@ == (CcSearchV {
                base: cc_base(join(views(terms@), " "@)),
                docs: Seq::empty(),
                off: (page_number(page) - 1) * row_count(rows),
                end: page_number(page) * row_count(rows),
            }),
        },
{
    let rows: u32 = clamp_rows(rows);
    let page: u32 = if page < 1 {
        1
    } else {
        page
    };
    if kind_is_ccmixter(kind) {
        assert((page - 1) * rows + rows == page * rows) by (nonlinear_arith)
            requires
                page >= 1,
        ;
        assert(0 <= (page - 1) * rows) by (nonlinear_arith)
            requires
                page >= 1,
        ;
        let offset: u32 = (page - 1) * rows;
        return SearchRequest::CcMixter(CcSearch::begin(joined(terms, " ").as_str(), rows, offset));
    }
    SearchRequest::Archive(search_url(build_query(kind, terms).as_str(), rows, page))
}

// ---- showing results ----

/// What is shown of a result: its title, else its identifier.
pub open spec fn doc_title(d: DocV) -> Seq<char> {
    if d.title.len() == 0 {
        d.identifier
    } else {
        d.title
    }
}

/// What is shown beside a result: creator, year, media type and downloads, as far as they
/// are known.
pub open spec fn doc_meta(d: DocV) -> Seq<char> {
    join(
        filled(
            seq![
                first_n(d.creator, 40),
                d.year,
                d.mediatype,
                (if d.downloads.len() == 0 {
                    ""@
                } else {
                    "↓"@ + d.downloads
                }),
            ],
        ),
        " · "@,
    )
}

/// The two lines that show the `i`th result.
pub open spec fn doc_text(i: int, d: DocV) -> (Seq<char>, Seq<char>) {
    (
        pad(dec(i), 2) + ".  "@ + first_n(doc_title(d), 68),
        "    "@ + doc_meta(d) + "  "@ + d.identifier,
    )
}

/// What is shown beside a result.
pub fn doc_meta_of(d: &Doc) -> (r: String)
    ensures
        r@ == doc_meta(d@),
{
    let mut parts: Vec<String> = Vec::new();
    parts.push(take_chars(d.creator.as_str(), 40));
    parts.push(d.year.clone());
    parts.push(d.mediatype.clone());
    if d.downloads.as_str().is_empty() {
        parts.push("".to_owned());
    } else {
        parts.push(cat2("↓", d.downloads.as_str()));
    }
    assert(views(parts@) == seq![
        first_n(d@.creator, 40),
        d@.year,
        d@.mediatype,
        (if d@.downloads.len() == 0 {
            ""@
        } else {
            "↓"@ + d@.downloads
        }),
    ]);
    joined(&drop_empty(parts), " · ")
}

/// The two lines that show the `i`th result.
pub fn doc_lines(i: usize, d: &Doc) -> (r: (String, String))
    ensures
        (r.0@, r.1@) == doc_text(i as int, d@),
{
    let title = if d.title.as_str().is_empty() {
        d.identifier.as_str()
    } else {
        d.title.as_str()
    };
    (
        cat3(pad_left(dec_usize(i).as_str(), 2).as_str(), ".  ", take_chars(title, 68).as_str()),
        cat4("    ", doc_meta_of(d).as_str(), "  ", d.identifier.as_str()),
    )
}

// ---- the conversation ----

/// A search that is under way in a conversation: how many rows a page has, what is looked
/// for, which page is due, and what was found.
pub struct Trove {
    pub n: u32,
    pub kind: Option<String>,
    pub words: Vec<String>,
    pub page: u32,
    pub docs: Vec<Doc>,
    pub num_found: u64,
}

/// The model of a [`Trove`].
#[verifier::ext_equal]
pub struct TroveV {
    pub n: int,
    pub kind: Option<Seq<char>>,
    pub words: Seq<Seq<char>>,
    pub page: int,
    pub docs: Seq<DocV>,
    pub num_found: u64,
}

impl View for Trove {
    type V = TroveV;

    open spec fn view(&self) -> TroveV {
        TroveV {
            n: self.n as int,
            kind: opt_view(self.kind),
            words: views(self.words@),
            page: self.page as int,
            docs: docs_view(self.docs@),
            num_found: self.num_found,
        }
    }
}

/// A kind and words: where no kind was given, the first word is one if it names one.
pub open spec fn kind_and_words(kind: Option<Seq<char>>, words: Seq<Seq<char>>) -> (
    Option<Seq<char>>,
    Seq<Seq<char>>,
) {
    if kind is None && words.len() > 0 && is_kind(words[0]) {
        (Some(words[0]), words.skip(1))
    } else {
        (kind, words)
    }
}

/// What is looked for, as it is shown.
pub open spec fn query_label(kind: Option<Seq<char>>, words: Seq<Seq<char>>) -> Seq<char> {
    if on_ccmixter(kind) {
        "ccmixter "@ + join(words, " "@)
    } else {
        archive_query(kind, words)
    }
}

impl TroveV {
    /// What a conversation keeps: a page has 1 to 50 rows, and pages are counted from 1.
    pub open spec fn wf(self) -> bool {
        &&& 1 <= self.n <= 50
        &&& 1 <= self.page <= u32::MAX
    }

    /// Whether the rows of all pages so far can be counted.
    pub open spec fn countable(self) -> bool {
        self.page * self.n <= u32::MAX
    }

    /// Whether there is more to be fetched.
    pub open spec fn more(self) -> bool {
        if self.num_found > 0 {
            self.docs.len() < self.num_found
        } else {
            self.docs.len() >= self.page * self.n
        }
    }

    /// The conversation after other words were given; none keep what is looked for.
    pub open spec fn renewed(self, line: Seq<char>) -> TroveV {
        let parts = words(line);
        let base = TroveV { page: 1, docs: Seq::empty(), num_found: 0, ..self };
        if parts.len() == 0 {
            base
        } else if is_kind(parts[0]) {
            TroveV { kind: Some(parts[0]), words: parts.skip(1), ..base }
        } else {
            TroveV { words: parts, ..base }
        }
    }
}

impl Trove {
    /// A conversation that begins.
    pub fn begin(n: u32, terms: &Vec<String>, kind: Option<&str>) -> (t: Trove)
        ensures
            t@ == (TroveV {
                n: row_count(n),
                kind: kind_and_words(opt_str(kind), views(terms@)).0,
                words: kind_and_words(opt_str(kind), views(terms@)).1,
                page: 1,
                docs: Seq::empty(),
                num_found: 0,
            }),
            t@.wf(),
    {
        let n: u32 = clamp_rows(n);
        assert(views(terms@).len() == terms.len());
        let mut k: Option<String> = match kind {
            Some(k) => Some(k.to_owned()),
            None => None,
        };
        let mut words = copy_list(terms);
        assert(views(words@).len() == words.len());
        if kind.is_none() && words.len() > 0 && is_kind_token(words[0].as_str()) {
            assert(views(words@)[0] == words@[0]@);
            k = Some(words[0].clone());
            words = copy_tail(&words, 1);
        }
        let docs: Vec<Doc> = Vec::new();
        assert(docs_view(docs@) == Seq::<DocV>::empty());
        Trove { n, kind: k, words, page: 1, docs, num_found: 0 }
    }

    /// What is announced before a page is fetched.
    pub fn announcement(&self) -> (s: String)
        ensures
            s@ == {
                let site = if on_ccmixter(self@.kind) {
                    "ccmixter.org"@
                } else {
                    "archive.org"@
                };
                if self@.page == 1 {
                    "  searching "@ + site + " …"@
                } else {
                    "  more from "@ + site + " (page "@ + dec(self@.page) + ") …"@
                }
            },
    {
        let site = if kind_is_ccmixter(opt_as_str(&self.kind)) {
            "ccmixter.org"
        } else {
            "archive.org"
        };
        if self.page == 1 {
            cat3("  searching ", site, " …")
        } else {
            cat5("  more from ", site, " (page ", dec_u64(self.page as u64).as_str(), ") …")
        }
    }

    /// Where the page that is due is fetched.
    pub fn request(&self) -> (r: SearchRequest)
        requires
            self@.wf(),
            on_ccmixter(self@.kind) ==> self@.countable(),
        ensures
            match r {
                SearchRequest::Archive(url) => !on_ccmixter(self@.kind) && url@ == search_address(
                    archive_query(self@.kind, self@.words),
                    self.n,
                    self.page,
                ),
                SearchRequest::CcMixter(c) => on_ccmixter(self@.kind) && c@ == (CcSearchV {
                    base: cc_base(join(self@.words, " "@)),
                    docs: Seq::empty(),
                    off: (self@.page - 1) * self@.n,
                    end: self@.page * self@.n,
                }),
            },
    {
        search_page(opt_as_str(&self.kind), &self.words, self.n, self.page)
    }

    /// Takes a page; returns how many of its results are new.
    pub fn run_trove(&mut self, chunk: &Vec<Doc>, total: u64) -> (new: usize)
        ensures
            final(self)@ == (TroveV {
                docs: with_unique(old(self)@.docs, docs_view(chunk@)),
                num_found: total,
                ..old(self)@
            }),
            new == final(self)@.docs.len() - old(self)@.docs.len(),
    {
        let before: usize = self.docs.len();
        assert(self@.docs.len() == before);
        self.num_found = total;
        append_unique(&mut self.docs, chunk);
        proof {
            law_append_keeps(old(self)@.docs, docs_view(chunk@));
            assert(self@.docs.len() == self.docs.len());
        }
        self.docs.len() - before
    }

    /// Whether there is more to be fetched.
    pub fn has_more(&self) -> (b: bool)
        requires
            self@.wf(),
            self@.num_found == 0 ==> self@.countable(),
        ensures
            b == self@.more(),
    {
        assert(self@.docs.len() == self.docs.len());
        if self.num_found > 0 {
            (self.docs.len() as u64) < self.num_found
        } else {
            self.docs.len() as u64 >= (self.page * self.n) as u64
        }
    }

    /// What is looked for, as it is shown.
    pub fn label(&self) -> (s: String)
        ensures
            s@ == query_label(self@.kind, self@.words),
    {
        if kind_is_ccmixter(opt_as_str(&self.kind)) {
            cat2("ccmixter ", joined(&self.words, " ").as_str())
        } else {
            build_query(opt_as_str(&self.kind), &self.words)
        }
    }

    /// Goes on to the next page.
    pub fn next_page(&mut self)
        requires
            old(self)@.wf(),
            old(self)@.page < u32::MAX,
        ensures
            final(self)@ == (TroveV { page: old(self)@.page + 1, ..old(self)@ }),
            final(self)@.wf(),
    {
        self.page = self.page + 1;
    }

    /// Looks for something else, or for the same anew.
    pub fn search_again(&mut self, line: &str)
        requires
            old(self)@.wf(),
        ensures
            final(self)@ == old(self)@.renewed(line@),
            final(self)@.wf(),
    {
        let parts = words_of(line);
        assert(views(parts@).len() == parts.len());
        if parts.len() > 0 {
            assert(views(parts@)[0] == parts@[0]@);
            if is_kind_token(parts[0].as_str()) {
                self.kind = Some(parts[0].clone());
                self.words = copy_tail(&parts, 1);
            } else {
                self.words = parts;
            }
        }
        self.page = 1;
        self.docs.clear();
        self.num_found = 0;
        assert(self@.docs == Seq::<DocV>::empty());
    }
}

/// What a user chose from the list of results.
#[derive(Debug, Clone, Copy, PartialEq, Eq, Structural)]
pub enum Choice {
    Quit,
    Again,
    More,
    /// Everything that is listed.
    All,
    /// The result at this place, counted from 0.
    One(usize),
    /// Nothing that is on offer.
    Bad,
}

/// What an answer chooses, from a list of `count` results.
pub open spec fn choice_of(answer: Seq<char>, count: int, more: bool) -> Choice {
    let c = lower(trim(answer));
    if c == "q"@ || c == "quit"@ || c == "exit"@ {
        Choice::Quit
    } else if c == "s"@ || c == "search"@ || c == "again"@ || c == "r"@ {
        Choice::Again
    } else if more && (c == "m"@ || c == "more"@ || c == "n"@ || c == "next"@) {
        Choice::More
    } else if c == "a"@ || c == "all"@ {
        Choice::All
    } else {
        match int_in(c, 0, usize::MAX as int) {
            Some(n) => if 1 <= n <= count {
                Choice::One((n - 1) as usize)
            } else {
                Choice::Bad
            },
            None => Choice::Bad,
        }
    }
}

/// What an answer chooses, from a list of `count` results.
pub fn interactive_list(answer: &str, count: usize, more: bool) -> (r: Choice)
    ensures
        r == choice_of(answer@, count as int, more),
{
    let c = lowered(trimmed(answer).as_str());
    let c = c.as_str();
    if same(c, "q") || same(c, "quit") || same(c, "exit") {
        return Choice::Quit;
    }
    if same(c, "s") || same(c, "search") || same(c, "again") || same(c, "r") {
        return Choice::Again;
    }
    if more && (same(c, "m") || same(c, "more") || same(c, "n") || same(c, "next")) {
        return Choice::More;
    }
    if same(c, "a") || same(c, "all") {
        return Choice::All;
    }
    match parse_usize(c) {
        Some(n) => {
            if 1 <= n && n <= count {
                Choice::One(n - 1)
            } else {
                Choice::Bad
            }
        },
        None => Choice::Bad,
    }
}

/// What follows in going through a list of results.
pub enum Turn {
    /// It is over.
    Leave,
    /// New words are asked for.
    Words,
    /// The next page is fetched.
    NextPage,
    /// The line is printed, if there is any, and an answer is asked for.
    Answer(Option<String>),
    /// The results at these places are fetched in order, and the line is printed. It is then
    /// over, or another answer is asked for.
    Fetch(Vec<usize>, String, bool),
}

/// The model of a [`Turn`].
#[verifier::ext_equal]
pub enum TurnV {
    Leave,
    Words,
    NextPage,
    Answer(Option<Seq<char>>),
    Fetch(Seq<usize>, Seq<char>, bool),
}

impl View for Turn {
    type V = TurnV;

    open spec fn view(&self) -> TurnV {
        match self {
            Turn::Leave => TurnV::Leave,
            Turn::Words => TurnV::Words,
            Turn::NextPage => TurnV::NextPage,
            Turn::Answer(l) => TurnV::Answer(opt_view(*l)),
            Turn::Fetch(p, l, over) => TurnV::Fetch(p@, l@, *over),
        }
    }
}

/// What follows a choice from a list of `count` results; no choice was made where the list is
/// shown first. A list without results leads to a new search; having fetched everything ends
/// it.
pub open spec fn turn_after(choice: Option<Choice>, count: int) -> TurnV {
    match choice {
        None => if count == 0 {
            TurnV::Words
        } else {
            TurnV::Answer(None)
        },
        Some(Choice::Quit) => TurnV::Leave,
        Some(Choice::Again) => TurnV::Words,
        Some(Choice::More) => TurnV::NextPage,
        Some(Choice::All) => TurnV::Fetch(
            Seq::new(count as nat, |i: int| i as usize),
            "Done. [s] new search, [q] quit."@,
            true,
        ),
        Some(Choice::One(i)) => TurnV::Fetch(
            seq![i],
            "Another number, [m] more, [s] search again, or [q] quit?"@,
            false,
        ),
        Some(Choice::Bad) => TurnV::Answer(Some("Pick a number, a, m, s, or q."@)),
    }
}

/// What follows a choice from a list of `count` results.
pub fn next_turn(choice: Option<Choice>, count: usize) -> (r: Turn)
    ensures
        r@ == turn_after(choice, count as int),
{
    match choice {
        None => {
            if count == 0 {
                Turn::Words
            } else {
                Turn::Answer(None)
            }
        },
        Some(Choice::Quit) => Turn::Leave,
        Some(Choice::Again) => Turn::Words,
        Some(Choice::More) => Turn::NextPage,
        Some(Choice::All) => {
            let mut all: Vec<usize> = Vec::new();
            for i in 0..count
                invariant
                    all@ == Seq::new(i as nat, |k: int| k as usize),
            {
                all.push(i);
            }
            Turn::Fetch(all, "Done. [s] new search, [q] quit.".to_owned(), true)
        },
        Some(Choice::One(i)) => {
            let mut one: Vec<usize> = Vec::new();
            one.push(i);
            assert(one@ == seq![i]);
            Turn::Fetch(one, "Another number, [m] more, [s] search again, or [q] quit?".to_owned(), false)
        },
        Some(Choice::Bad) => Turn::Answer(Some("Pick a number, a, m, s, or q.".to_owned())),
    }
}

/// The lines above the list of results.
pub open spec fn list_head(label: Seq<char>, num_found: u64, count: int) -> Seq<Seq<char>> {
    seq![
        ""@,
        "  query:   "@ + label,
        "  matches: "@ + dec(num_found as int) + "  ·  showing "@ + dec(count),
        ""@,
    ]
}

/// The lines that list results, each over two lines and an empty one.
pub open spec fn list_body(docs: Seq<DocV>) -> Seq<Seq<char>>
    decreases docs.len(),
{
    if docs.len() == 0 {
        Seq::empty()
    } else {
        let (a, b) = doc_text(docs.len() as int, docs.last());
        list_body(docs.drop_last()) + seq!["  "@ + a, "  "@ + b, ""@]
    }
}

/// The lines that show what was found, and what can be done with it.
pub open spec fn list_lines(t: TroveV) -> Seq<Seq<char>> {
    let head = list_head(query_label(t.kind, t.words), t.num_found, t.docs.len() as int);
    if t.docs.len() == 0 {
        head.push("  No results. Try different words."@)
    } else {
        (head + list_body(t.docs)).push(
            if t.more() {
                "  [1-N] download   [a] all listed   [m] more   [s] search again   [q] quit"@
            } else {
                "  [1-N] download   [a] all listed   [s] search again   [q] quit"@
            },
        ).push(""@)
    }
}

impl Trove {
    /// The lines that show what was found, and what can be done with it. Where nothing was
    /// found, other words are asked for at once.
    pub fn show(&self) -> (r: Vec<String>)
        requires
            self@.wf(),
            self@.num_found == 0 ==> self@.countable(),
        ensures
            views(r@) == list_lines(self@),
    {
        let mut r = no_texts();
        assert(self@.docs.len() == self.docs.len());
        push_text(&mut r, "".to_owned());
        push_text(&mut r, cat2("  query:   ", self.label().as_str()));
        push_text(
            &mut r,
            cat4(
                "  matches: ",
                dec_u64(self.num_found).as_str(),
                "  ·  showing ",
                dec_usize(self.docs.len()).as_str(),
            ),
        );
        push_text(&mut r, "".to_owned());
        let ghost head = list_head(query_label(self@.kind, self@.words), self@.num_found, self@.docs.len() as int);
        assert(views(r@) == head);
        if self.docs.len() == 0 {
            push_text(&mut r, "  No results. Try different words.".to_owned());
            return r;
        }
        let ghost all = self@.docs;
        assert(head + list_body(all.take(0)) == head);
        for i in 0..self.docs.len()
            invariant
                all == self@.docs,
                all.len() == self.docs.len(),
                views(r@) == head + list_body(all.take(i as int)),
        {
            let (a, b) = doc_lines(i + 1, &self.docs[i]);
            let ghost before = views(r@);
            push_text(&mut r, cat2("  ", a.as_str()));
            push_text(&mut r, cat2("  ", b.as_str()));
            push_text(&mut r, "".to_owned());
            proof {
                let next = all.take(i + 1);
                assert(next.drop_last() == all.take(i as int));
                assert(next.last() == self.docs@[i as int]@);
                assert(views(r@) == before + seq!["  "@ + a@, "  "@ + b@, ""@]);
                assert(head + list_body(next) == before + seq!["  "@ + a@, "  "@ + b@, ""@]);
            }
        }
        assert(all.take(self.docs.len() as int) == all);
        if self.has_more() {
            push_text(
                &mut r,
                "  [1-N] download   [a] all listed   [m] more   [s] search again   [q] quit".to_owned(),
            );
        } else {
            push_text(&mut r, "  [1-N] download   [a] all listed   [s] search again   [q] quit".to_owned());
        }
        push_text(&mut r, "".to_owned());
        r
    }
}

/// The identifier that `get` is given; none is an error of use.
pub fn run_get(identifier: &str) -> (r: Result<String, String>)
    ensures
        match r {
            Ok(s) => !blank(identifier@) && s@ == trim(identifier@),
            Err(e) => blank(identifier@) && e@ == "usage: siren trove get <identifier> [--format EXT|all]"@,
        },
{
    if is_blank(identifier) {
        return Err("usage: siren trove get <identifier> [--format EXT|all]".to_owned());
    }
    Ok(trimmed(identifier))
}

/// What the command is for.
pub open spec fn about_lines() -> Seq<Seq<char>> {
    seq![
        "siren trove — free & legal media"@,
        "(Internet Archive + ccMixter)"@,
        ""@,
        "  siren trove music lofi          search + pick (20, then [m] more)"@,
        "  siren trove live grateful       Live Music Archive (etree)"@,
        "  siren trove ccmixter lofi       ccMixter remixes"@,
        "  siren trove podcast history     kind + terms"@,
        "  siren trove get <identifier>    download one item"@,
        "  --format mp3|flac|ogg|all      pick a version (else it asks)"@,
        "  siren trove about"@,
        ""@,
        "downloads land in ~/Music/trove and ~/Videos/trove"@,
    ]
}

/// What the command is for.
pub fn about_text() -> (r: Vec<String>)
    ensures
        views(r@) == about_lines(),
{
    let mut r: Vec<String> = Vec::new();
    r.push("siren trove — free & legal media".to_owned());
    r.push("(Internet Archive + ccMixter)".to_owned());
    r.push("".to_owned());
    r.push("  siren trove music lofi          search + pick (20, then [m] more)".to_owned());
    r.push("  siren trove live grateful       Live Music Archive (etree)".to_owned());
    r.push("  siren trove ccmixter lofi       ccMixter remixes".to_owned());
    r.push("  siren trove podcast history     kind + terms".to_owned());
    r.push("  siren trove get <identifier>    download one item".to_owned());
    r.push("  --format mp3|flac|ogg|all      pick a version (else it asks)".to_owned());
    r.push("  siren trove about".to_owned());
    r.push("".to_owned());
    r.push("downloads land in ~/Music/trove and ~/Videos/trove".to_owned());
    assert(views(r@) == about_lines());
    r
}

// ---- laws ----

/// Whatever is answered, only results that are listed are fetched.
pub proof fn law_fetches_are_listed(answer: Seq<char>, count: int, more: bool)
    requires
        0 <= count <= usize::MAX,
    ensures
        match turn_after(Some(choice_of(answer, count, more)), count) {
            TurnV::Fetch(places, _, _) => forall|i: int| 0 <= i < places.len() ==> (#[trigger] places[i]) < count,
            _ => true,
        },
{
}

/// Results that were there stay, in their places, when more are put behind them.
pub proof fn law_append_keeps(docs: Seq<DocV>, more: Seq<DocV>)
    ensures
        with_unique(docs, more).len() >= docs.len(),
        with_unique(docs, more).take(docs.len() as int) == docs,
    decreases more.len(),
{
    if more.len() > 0 {
        law_append_keeps(docs, more.drop_last());
        let front = with_unique(docs, more.drop_last());
        let all = with_unique(docs, more);
        assert(all.take(docs.len() as int) == front.take(docs.len() as int));
    } else {
        assert(docs.take(docs.len() as int) == docs);
    }
}

/// No two results of one list have the same identifier.
pub open spec fn idents_differ(docs: Seq<DocV>) -> bool {
    forall|i: int, j: int|
        0 <= i < j < docs.len() ==> (#[trigger] docs[i]).identifier != (#[trigger] docs[j]).identifier
}

/// However many pages are put together, no identifier is listed twice.
pub proof fn law_append_unique(docs: Seq<DocV>, more: Seq<DocV>)
    requires
        idents_differ(docs),
    ensures
        idents_differ(with_unique(docs, more)),
    decreases more.len(),
{
    if more.len() > 0 {
        law_append_unique(docs, more.drop_last());
        let front = with_unique(docs, more.drop_last());
        let all = with_unique(docs, more);
        assert forall|i: int, j: int| 0 <= i < j < all.len() implies (#[trigger] all[i]).identifier != (
        #[trigger] all[j]).identifier by {
            assert(all[i] == front[i]);
            if j < front.len() {
                assert(all[j] == front[j]);
            }
        }
    }
}

/// A page that is fetched twice adds nothing the second time.
pub proof fn law_append_twice(docs: Seq<DocV>, more: Seq<DocV>)
    ensures
        with_unique(with_unique(docs, more), more) == with_unique(docs, more),
{
    lemma_append_known(with_unique(docs, more), more, more.len());
    lemma_append_has(docs, more);
    assert(more.take(more.len() as int) == more);
}

proof fn lemma_append_has(docs: Seq<DocV>, more: Seq<DocV>)
    ensures
        forall|i: int| 0 <= i < more.len() ==> has_ident(with_unique(docs, more), (#[trigger] more[i]).identifier),
    decreases more.len(),
{
    if more.len() > 0 {
        let front = with_unique(docs, more.drop_last());
        let all = with_unique(docs, more);
        lemma_append_has(docs, more.drop_last());
        assert forall|i: int| 0 <= i < more.len() implies has_ident(all, (#[trigger] more[i]).identifier) by {
            if i < more.len() - 1 {
                assert(more.drop_last()[i] == more[i]);
                assert(has_ident(front, more[i].identifier));
                let k = choose|k: int| 0 <= k < front.len() && (#[trigger] front[k]).identifier == more[i].identifier;
                assert(all[k] == front[k]);
            } else if !has_ident(front, more.last().identifier) {
                assert(all[front.len() as int] == more.last());
            }
        }
    }
}

proof fn lemma_append_known(all: Seq<DocV>, more: Seq<DocV>, n: nat)
    requires
        n <= more.len(),
    ensures
        (forall|i: int| 0 <= i < more.len() ==> has_ident(all, (#[trigger] more[i]).identifier)) ==> with_unique(
            all,
            more.take(n as int),
        ) == all,
    decreases n,
{
    if n > 0 {
        lemma_append_known(all, more, (n - 1) as nat);
        assert(more.take(n as int).drop_last() == more.take(n - 1));
        assert(more.take(n as int).last() == more[n - 1]);
    }
}

/// A search of ccMixter ends: each answer that asks for another leaves fewer rows to be
/// fetched.
pub proof fn law_cc_search_ends(c: CcSearchV, v: JsonV)
    requires
        c.off < c.end,
    ensures
        c.end - c.taken(v).0.off < c.end - c.off,
        c.taken(v).0.off <= c.taken(v).0.end,
{
}

/// What the archive lists is what is shown: the `i`th result has, in each of its fields, the text
/// that the `i`th entry of the answer has under the field's own name, or the number as it is
/// written there. All entries are there, and the number of matches is the one that is given.
pub proof fn law_results_are_as_listed(text: Seq<char>, i: int)
    requires
        json_parsed(text) is Ok,
        json_parsed(text)->Ok_0.get("response"@) is Some,
        json_parsed(text)->Ok_0.get("response"@)->0.arr_at("docs"@) is Some,
        0 <= i < json_parsed(text)->Ok_0.get("response"@)->0.arr_at("docs"@)->0.len(),
    ensures
        search_result(text) is Ok,
        ({
            let resp = json_parsed(text)->Ok_0.get("response"@)->0;
            let entry = resp.arr_at("docs"@)->0[i];
            let (docs, total) = search_result(text)->Ok_0;
            let d = docs[i];
            &&& docs.len() == resp.arr_at("docs"@)->0.len()
            &&& resp.u64_at("numFound"@) is Some ==> Some(total) == resp.u64_at("numFound"@)
            &&& entry.str_at("identifier"@) is Some ==> entry.str_at("identifier"@) == Some(d.identifier)
            &&& entry.str_at("title"@) is Some ==> entry.str_at("title"@) == Some(d.title)
            &&& entry.str_at("creator"@) is Some ==> entry.str_at("creator"@) == Some(d.creator)
            &&& entry.str_at("year"@) is Some ==> entry.str_at("year"@) == Some(d.year)
            &&& entry.str_at("mediatype"@) is Some ==> entry.str_at("mediatype"@) == Some(d.mediatype)
            &&& entry.str_at("downloads"@) is Some ==> entry.str_at("downloads"@) == Some(d.downloads)
            &&& entry.get("year"@) matches Some(JsonV::Num(n)) ==> d.year == n.text
            &&& entry.get("downloads"@) matches Some(JsonV::Num(n)) ==> d.downloads == n.text
            &&& entry.get("title"@) is None ==> d.title.len() == 0
            &&& entry.get("creator"@) is None ==> d.creator.len() == 0
            &&& d.source == Source::Archive
        }),
{
    reveal_strlit("");
}

/// A member that is a list is shown by its first two texts, with a comma between them.
pub proof fn law_lists_are_shortened(v: JsonV, key: Seq<char>, a: Seq<char>, b: Seq<char>, rest: Seq<JsonV>)
    ensures
        v.get(key) == Some(JsonV::Arr(seq![JsonV::Str(a)])) ==> member_text(v, key) == a,
        v.get(key) == Some(JsonV::Arr(seq![JsonV::Str(a), JsonV::Str(b)] + rest)) ==> member_text(v, key) == a + ", "@ + b,
{
    let one = seq![JsonV::Str(a)];
    assert(one.drop_last() == Seq::<JsonV>::empty());
    assert(one.last() == JsonV::Str(a));
    reveal_with_fuel(texts, 3);
    reveal_with_fuel(join, 3);
    assert(texts(one) =~= seq![a]);
    assert(texts(one).take(1) =~= seq![a]);
    let two = seq![JsonV::Str(a), JsonV::Str(b)];
    assert(two.drop_last() =~= one);
    assert(two.last() == JsonV::Str(b));
    assert(texts(two) =~= seq![a, b]);
    lemma_texts_begin(two, rest);
    let t = texts(two + rest).take(2);
    assert(t =~= seq![a, b]);
    assert(t.drop_last() =~= seq![a]);
}

proof fn lemma_texts_begin(a: Seq<JsonV>, rest: Seq<JsonV>)
    ensures
        texts(a + rest).len() >= texts(a).len(),
        texts(a + rest).take(texts(a).len() as int) == texts(a),
    decreases rest.len(),
{
    if rest.len() == 0 {
        assert(a + rest == a);
        assert(texts(a).take(texts(a).len() as int) == texts(a));
    } else {
        let f = rest.drop_last();
        lemma_texts_begin(a, f);
        assert((a + rest).drop_last() == a + f);
        assert(texts(a + rest).take(texts(a).len() as int) == texts(a + f).take(texts(a).len() as int));
    }
}

/// An upload of ccMixter is shown by its number, its name and its author, by the real name where
/// that is known; one without a number is left out. Nothing else is, and the order stays.
pub proof fn law_uploads_are_as_listed(a: Seq<JsonV>, v: JsonV)
    ensures
        cc_docs(a.push(v)) == cc_docs(a) + cc_docs(seq![v]),
        v.u64_at("upload_id"@) matches Some(n) ==> {
            let d = cc_docs(seq![v])[0];
            &&& cc_docs(seq![v]).len() == 1
            &&& d.identifier == "ccmixter:"@ + dec(n as int)
            &&& v.str_at("upload_name"@) is Some ==> v.str_at("upload_name"@) == Some(d.title)
            &&& v.str_or("user_real_name"@, ""@).len() > 0 ==> d.creator == v.str_or("user_real_name"@, ""@)
            &&& v.get("user_real_name"@) is None && v.str_at("user_name"@) is Some ==> v.str_at("user_name"@) == Some(d.creator)
            &&& d.source == Source::CcMixter
            &&& starts(d.identifier, "ccmixter:"@)
        },
        v.get("upload_id"@) is None ==> cc_docs(seq![v]).len() == 0,
{
    reveal_strlit("");
    assert(a.push(v).drop_last() == a);
    assert(seq![v].drop_last() == Seq::<JsonV>::empty());
    assert(seq![v].last() == v);
    reveal_with_fuel(cc_docs, 2);
    assert(cc_docs(a.push(v)) =~= cc_docs(a) + cc_docs(seq![v]));
    if let Some(n) = v.u64_at("upload_id"@) {
        let i = "ccmixter:"@ + dec(n as int);
        assert(i.subrange(0, "ccmixter:"@.len() as int) =~= "ccmixter:"@);
    }
}

/// More results are put behind those that are there: all of them that are new come, in their
/// order, and nothing else.
pub proof fn law_new_results_come(docs: Seq<DocV>, more: Seq<DocV>, d: DocV)
    ensures
        has_ident(with_unique(docs, more), d.identifier) ==> with_unique(docs, more.push(d)) == with_unique(docs, more),
        !has_ident(with_unique(docs, more), d.identifier) ==> with_unique(docs, more.push(d)) == with_unique(docs, more).push(
            d,
        ),
        with_unique(docs, Seq::empty()) == docs,
        has_ident(docs, d.identifier) <==> exists|i: int| 0 <= i < docs.len() && (#[trigger] docs[i]).identifier == d.identifier,
{
    assert(more.push(d).drop_last() == more);
}

/// The words that are looked for are looked for in the title, the subject, the description and the
/// creator, without their quotes; a kind narrows the search to its media type, and a word that is
/// no kind is looked for with the others. Without either, audio is looked for.
pub proof fn law_query_asks(kind: Seq<char>, terms: Seq<Seq<char>>)
    ensures
        archive_query(None, Seq::empty()) == "mediatype:(audio)"@,
        terms.len() > 0 && !join(terms, " "@).contains('"') ==> ({
            let w = join(terms, " "@);
            archive_query(None, terms) == "(title:("@ + w + ") OR subject:("@ + w + ") OR description:("@ + w
                + ") OR creator:("@ + w + "))"@
        }),
        !is_kind(kind) && lower(kind) != "movies"@ && kind_of(lower(lower(kind))) is None ==> archive_query(Some(kind), terms)
            == archive_query(None, seq![kind] + terms),
        kind_of(lower(lower(kind))) matches Some((mt, hint)) ==> {
            let narrow = if hint.len() == 0 {
                "mediatype:("@ + mt + ")"@
            } else {
                "mediatype:("@ + mt + ")"@ + " AND "@ + hint
            };
            &&& archive_query(Some(kind), Seq::empty()) == narrow
            &&& terms.len() > 0 ==> archive_query(Some(kind), terms) == narrow + " AND "@ + archive_query(None, terms)
        },
        !words_part(terms).contains('"'),
{
    reveal_with_fuel(join, 4);
    assert(kind_parts(None).push(words_part(terms)) =~= seq![words_part(terms)]);
    let raw = join(terms, " "@);
    let esc = raw.map_values(|c: char| if c == '"' { ' ' } else { c });
    if !raw.contains('"') {
        assert forall|i: int| 0 <= i < raw.len() implies raw[i] != '"' by {
            if raw[i] == '"' {
                assert(raw.contains('"'));
            }
        }
        assert(esc =~= raw);
    }
    assert(terms.insert(0, kind) =~= seq![kind] + terms);
    if let Some((mt, hint)) = kind_of(lower(lower(kind))) {
        assert(is_kind(kind));
        let m = "mediatype:("@ + mt + ")"@;
        let w = words_part(terms);
        let p = kind_parts(Some(kind));
        if hint.len() == 0 {
            assert(p =~= seq![m]);
            assert(p.push(w).drop_last() =~= seq![m]);
        } else {
            assert(p =~= seq![m, hint]);
            assert(p.drop_last() =~= seq![m]);
            assert(p.push(w).drop_last() =~= p);
        }
    }
    lemma_no_quote(raw, esc, words_part(terms));
}

proof fn lemma_no_quote(raw: Seq<char>, esc: Seq<char>, all: Seq<char>)
    requires
        esc == raw.map_values(|c: char| if c == '"' { ' ' } else { c }),
        all == "(title:("@ + esc + ") OR subject:("@ + esc + ") OR description:("@ + esc + ") OR creator:("@ + esc + "))"@,
    ensures
        !all.contains('"'),
{
    reveal_strlit("(title:(");
    reveal_strlit(") OR subject:(");
    reveal_strlit(") OR description:(");
    reveal_strlit(") OR creator:(");
    reveal_strlit("))");
    assert forall|i: int| 0 <= i < esc.len() implies esc[i] != '"' by {}
    let a = "(title:("@ + esc;
    let b = a + ") OR subject:("@ + esc;
    let c = b + ") OR description:("@ + esc;
    let d = c + ") OR creator:("@ + esc;
    assert forall|i: int| 0 <= i < a.len() implies a[i] != '"' by {
        if i >= 8 {
            assert(a[i] == esc[i - 8]);
        }
    }
    assert forall|i: int| 0 <= i < b.len() implies b[i] != '"' by {
        if i < a.len() {
            assert(b[i] == a[i]);
        } else if i >= a.len() + 14 {
            assert(b[i] == esc[i - a.len() - 14]);
        } else {
            assert(b[i] == ") OR subject:("@[i - a.len()]);
        }
    }
    assert forall|i: int| 0 <= i < c.len() implies c[i] != '"' by {
        if i < b.len() {
            assert(c[i] == b[i]);
        } else if i >= b.len() + 18 {
            assert(c[i] == esc[i - b.len() - 18]);
        } else {
            assert(c[i] == ") OR description:("@[i - b.len()]);
        }
    }
    assert forall|i: int| 0 <= i < d.len() implies d[i] != '"' by {
        if i < c.len() {
            assert(d[i] == c[i]);
        } else if i >= c.len() + 14 {
            assert(d[i] == esc[i - c.len() - 14]);
        } else {
            assert(d[i] == ") OR creator:("@[i - c.len()]);
        }
    }
    assert forall|i: int| 0 <= i < all.len() implies all[i] != '"' by {
        if i < d.len() {
            assert(all[i] == d[i]);
        } else {
            assert(all[i] == "))"@[i - d.len()]);
        }
    }
}

/// The kinds name the media types of the archive: music, tracks, albums, podcasts and audiobooks
/// are audio, what was played live is of its own type, and the rest are movies; and each names the
/// subjects and collections that it is found by.
pub proof fn law_kinds_name_media_types(k: Seq<char>)
    ensures
        k == "music"@ || k == "tracks"@ || k == "songs"@ || k == "album"@ || k == "podcast"@ || k == "podcasts"@ || k
            == "shows"@ || k == "audiobook"@ || k == "audiobooks"@ ==> (kind_of(k) matches Some((mt, _)) && mt == "audio"@),
        k == "live"@ || k == "etree"@ || k == "lma"@ || k == "jam"@ ==> kind_of(k) == Some(("etree"@, "collection:(etree)"@)),
        k == "movie"@ || k == "movies"@ || k == "films"@ || k == "series"@ || k == "video"@ || k == "documentary"@ || k
            == "documentaries"@ ==> (kind_of(k) matches Some((mt, _)) && mt == "movies"@),
        k == "music"@ ==> (kind_of(k) matches Some((_, hint)) && hint
            == "(subject:(music) OR collection:(opensource_audio) OR collection:(netlabels))"@),
        k == "tracks"@ || k == "songs"@ ==> (kind_of(k) matches Some((_, hint)) && hint
            == "(subject:(music) OR collection:(opensource_audio))"@),
        k == "album"@ ==> (kind_of(k) matches Some((_, hint)) && hint
            == "(subject:(album) OR subject:(music) OR collection:(netlabels))"@),
        k == "podcast"@ || k == "podcasts"@ || k == "shows"@ ==> (kind_of(k) matches Some((_, hint)) && hint
            == "(subject:(podcast) OR collection:(podcasts) OR title:(podcast))"@),
        k == "audiobook"@ || k == "audiobooks"@ ==> (kind_of(k) matches Some((_, hint)) && hint
            == "(collection:(librivoxaudio) OR subject:(audiobook) OR creator:(LibriVox))"@),
        k == "movie"@ ==> (kind_of(k) matches Some((_, hint)) && hint
            == "(subject:(feature) OR subject:(film) OR collection:(feature_films))"@),
        k == "movies"@ ==> (kind_of(k) matches Some((_, hint)) && hint == "(subject:(feature) OR collection:(feature_films))"@),
        k == "films"@ ==> (kind_of(k) matches Some((_, hint)) && hint == "(subject:(film) OR collection:(feature_films))"@),
        k == "series"@ ==> (kind_of(k) matches Some((_, hint)) && hint
            == "(subject:(series) OR subject:(television) OR subject:(episode))"@),
        k == "documentary"@ || k == "documentaries"@ ==> (kind_of(k) matches Some((_, hint)) && hint
            == "(subject:(documentary) OR collection:(documentary))"@),
        k == "video"@ ==> (kind_of(k) matches Some((_, hint)) && hint == ""@),
        is_cc_word(k) <==> k == "ccmixter"@ || k == "cc"@ || k == "remix"@ || k == "remixes"@ || k == "mixter"@,
{
    reveal_strlit("music");
    reveal_strlit("tracks");
    reveal_strlit("songs");
    reveal_strlit("album");
    reveal_strlit("podcast");
    reveal_strlit("podcasts");
    reveal_strlit("shows");
    reveal_strlit("audiobook");
    reveal_strlit("audiobooks");
    reveal_strlit("live");
    reveal_strlit("etree");
    reveal_strlit("lma");
    reveal_strlit("jam");
    reveal_strlit("movie");
    reveal_strlit("movies");
    reveal_strlit("films");
    reveal_strlit("series");
    reveal_strlit("video");
    reveal_strlit("documentary");
    reveal_strlit("documentaries");
    assert("music"@.len() == 5);
    assert("songs"@[0] != "music"@[0]);
    assert("tracks"@.len() == 6 && "songs"@.len() == 5);
    assert("album"@[0] != "music"@[0]);
    assert("album"@[0] != "songs"@[0]);
    assert("album"@.len() == 5);
    assert("shows"@[0] != "music"@[0]);
    assert("shows"@[1] != "songs"@[1]);
    assert("shows"@[0] != "album"@[0]);
    assert("podcast"@.len() == 7 && "podcasts"@.len() == 8 && "shows"@.len() == 5);
    assert("audiobook"@.len() == 9 && "audiobooks"@.len() == 10);
    assert("etree"@[0] != "music"@[0]);
    assert("etree"@[0] != "songs"@[0]);
    assert("etree"@[0] != "album"@[0]);
    assert("etree"@[0] != "shows"@[0]);
    assert("live"@.len() == 4 && "etree"@.len() == 5 && "lma"@.len() == 3 && "jam"@.len() == 3);
    assert("movie"@[1] != "music"@[1]);
    assert("movie"@[0] != "songs"@[0]);
    assert("movie"@[0] != "album"@[0]);
    assert("movie"@[0] != "shows"@[0]);
    assert("movie"@[0] != "etree"@[0]);
    assert("movie"@.len() == 5);
    assert("movies"@[0] != "tracks"@[0]);
    assert("movies"@.len() == 6);
    assert("films"@[0] != "music"@[0]);
    assert("films"@[0] != "songs"@[0]);
    assert("films"@[0] != "album"@[0]);
    assert("films"@[0] != "shows"@[0]);
    assert("films"@[0] != "etree"@[0]);
    assert("films"@[0] != "movie"@[0]);
    assert("films"@.len() == 5);
    assert("series"@[0] != "tracks"@[0]);
    assert("series"@[0] != "movies"@[0]);
    assert("series"@.len() == 6);
    assert("video"@[0] != "music"@[0]);
    assert("video"@[0] != "songs"@[0]);
    assert("video"@[0] != "album"@[0]);
    assert("video"@[0] != "shows"@[0]);
    assert("video"@[0] != "etree"@[0]);
    assert("video"@[0] != "movie"@[0]);
    assert("video"@[0] != "films"@[0]);
    assert("video"@.len() == 5);
    assert("documentary"@.len() == 11 && "documentaries"@.len() == 13);
}

/// A page of the archive is asked for by the query, by how many rows it has, from one to fifty, and
/// by its number; the most downloaded come first.
pub proof fn law_page_is_asked_for(query: Seq<char>, rows: u32, page: u32)
    ensures
        starts(search_address(query, rows, page), "https://archive.org/advancedsearch.php?q="@ + query_text(query) + "&rows="@),
        has(search_address(query, rows, page), "&page="@ + dec(page as int) + "&output=json&sort%5B%5D=downloads+desc"@),
        1 <= rows <= 50 ==> has(search_address(query, rows, page), "&rows="@ + dec(rows as int) + "&page="@),
        rows == 0 ==> search_address(query, rows, page) == search_address(query, 1, page),
        rows > 50 ==> search_address(query, rows, page) == search_address(query, 50, page),
        unpercent(query_text(query), true) == vstd::utf8::encode_utf8(query),
{
    let a = "https://archive.org/advancedsearch.php?q="@ + query_text(query);
    let r = dec(row_count(rows));
    let p = dec(page as int);
    let s = "&output=json&sort%5B%5D=downloads+desc"@;
    let z = "&fl%5B%5D=identifier&fl%5B%5D=title&fl%5B%5D=creator&fl%5B%5D=year&fl%5B%5D=mediatype&fl%5B%5D=downloads"@;
    let all = search_address(query, rows, page);
    let head = a + "&rows="@;
    crate::text::law_has_is_contains(Seq::empty(), head, r + "&page="@ + p + s + z);
    assert(all =~= head + (r + "&page="@ + p + s + z));
    crate::text::law_has_is_contains(head + r, "&page="@ + p + s, z);
    assert(all =~= head + r + ("&page="@ + p + s) + z);
    crate::text::law_has_is_contains(a, "&rows="@ + r + "&page="@, p + s + z);
    assert(all =~= a + ("&rows="@ + r + "&page="@) + (p + s + z));
    crate::urls::law_percent_reads_back(vstd::utf8::encode_utf8(query), true, false);
}

/// The pages of ccMixter follow one another: a page is fetched in requests of ten rows, each
/// beginning where the one before it ended, until its rows are there or an answer is short; what
/// came is kept in front of what comes.
pub proof fn law_ccmixter_pages(c: CcSearchV, v: JsonV)
    requires
        0 <= c.off < c.end <= u32::MAX,
        v.items().len() <= u32::MAX,
    ensures
        c.taken(v).0.docs == c.docs + cc_docs(v.items()),
        c.end - c.off >= 10 ==> c.taken(v).0.off == c.off + 10 && c.address() == c.base + "&f=json&limit="@ + dec(10)
            + "&offset="@ + dec(c.off),
        c.end - c.off < 10 ==> c.taken(v).0.off == c.end,
        c.taken(v).1 ==> v.items().len() >= 10 && c.taken(v).0.off < c.end,
        c.end - c.off > 10 && v.items().len() >= 10 ==> c.taken(v).1,
        c.taken(v).0.end == c.end && c.taken(v).0.base == c.base,
{
}

/// What an answer chooses: a number within the list the result at that place, counted from one; a
/// letter or a word what it stands for; any other answer nothing.
pub proof fn law_answer_chooses(n: int, count: int, more: bool, answer: Seq<char>)
    requires
        0 <= count <= usize::MAX,
    ensures
        1 <= n <= count && trim(answer) == dec(n) ==> choice_of(answer, count, more) == Choice::One((n - 1) as usize),
        n > count && n <= usize::MAX && trim(answer) == dec(n) ==> choice_of(answer, count, more) == Choice::Bad,
        lower(trim(answer)) == "q"@ ==> choice_of(answer, count, more) == Choice::Quit,
        lower(trim(answer)) == "a"@ || lower(trim(answer)) == "all"@ ==> choice_of(answer, count, more) == Choice::All,
        lower(trim(answer)) == "m"@ ==> (choice_of(answer, count, more) == Choice::More <==> more),
        lower(trim(answer)) == "s"@ ==> choice_of(answer, count, more) == Choice::Again,
        choice_of(answer, count, more) matches Choice::One(i) ==> i < count,
        turn_after(Some(Choice::All), count) matches TurnV::Fetch(places, _, over) && over && places.len() == count && (
        forall|i: int| 0 <= i < count ==> #[trigger] places[i] == i),
        forall|i: usize|
            #[trigger] turn_after(Some(Choice::One(i)), count) matches TurnV::Fetch(places, _, over) && !over && places
                == seq![i],
        turn_after(Some(Choice::Quit), count) is Leave,
        turn_after(Some(Choice::Again), count) is Words,
        turn_after(Some(Choice::More), count) is NextPage,
{
    reveal_strlit("q");
    reveal_strlit("quit");
    reveal_strlit("exit");
    reveal_strlit("s");
    reveal_strlit("search");
    reveal_strlit("again");
    reveal_strlit("r");
    reveal_strlit("m");
    reveal_strlit("more");
    reveal_strlit("n");
    reveal_strlit("next");
    reveal_strlit("a");
    reveal_strlit("all");
    assert("q"@[0] == 'q' && "s"@[0] == 's' && "r"@[0] == 'r' && "m"@[0] == 'm' && "n"@[0] == 'n' && "a"@[0] == 'a');
    assert("quit"@[0] == 'q' && "exit"@[0] == 'e' && "search"@[0] == 's' && "again"@[0] == 'a' && "more"@[0] == 'm');
    assert("next"@[0] == 'n' && "all"@[0] == 'a');
    if trim(answer) == dec(n) && 1 <= n <= usize::MAX {
        crate::nums::law_dec_reads_back(n, 0, usize::MAX as int);
        crate::nums::lemma_dec_nat(n as nat);
        let t = dec(n);
        assert(crate::nums::is_digit(t[0]));
        assert(crate::text::all_ascii(t)) by {
            assert forall|i: int| 0 <= i < t.len() implies crate::text::is_ascii(#[trigger] t[i]) by {
                assert(crate::nums::is_digit(t[i]));
            }
        }
        assert(lower(t) =~= t) by {
            assert forall|i: int| 0 <= i < t.len() implies lower(t)[i] == t[i] by {
                assert(crate::nums::is_digit(t[i]));
            }
        }
    }
    if lower(trim(answer)) == "m"@ && !more {
        let c = "m"@;
        assert(int_in(c, 0, usize::MAX as int) is None || choice_of(answer, count, more) is One);
    }
}

/// A conversation begins with what is asked for: where no kind is given, the first word is the kind
/// if it is one. New words begin it anew; where none are given it goes on looking for the same.
pub proof fn law_kind_is_read(words: Seq<Seq<char>>, kind: Seq<char>, t: TroveV, line: Seq<char>)
    ensures
        kind_and_words(Some(kind), words) == (Some(kind), words),
        words.len() > 0 && is_kind(words[0]) ==> kind_and_words(None, words) == (Some(words[0]), words.skip(1)),
        words.len() > 0 && !is_kind(words[0]) ==> kind_and_words(None, words) == (None::<Seq<char>>, words),
        t.renewed(line).page == 1 && t.renewed(line).docs.len() == 0 && t.renewed(line).n == t.n,
        crate::text::words(line).len() == 0 ==> t.renewed(line).kind == t.kind && t.renewed(line).words == t.words,
        crate::text::words(line).len() > 0 && is_kind(crate::text::words(line)[0]) ==> t.renewed(line).kind == Some(
            crate::text::words(line)[0],
        ) && t.renewed(line).words == crate::text::words(line).skip(1),
        crate::text::words(line).len() > 0 && !is_kind(crate::text::words(line)[0]) ==> t.renewed(line).kind == t.kind
            && t.renewed(line).words == crate::text::words(line),
        t.num_found > 0 ==> (t.more() <==> t.docs.len() < t.num_found),
{
}

/// Each result is listed over two lines, by its place, its title, or its identifier where it has
/// none, what is known of it, and its identifier.
pub proof fn law_results_are_listed(docs: Seq<DocV>, d: DocV)
    ensures
        ({
            let n = docs.len() + 1;
            let body = list_body(docs.push(d));
            &&& body.len() == 3 * n
            &&& body.take(3 * docs.len() as int) == list_body(docs)
            &&& has(body[3 * docs.len() as int], dec(n as int) + ".  "@ + first_n(
                if d.title.len() > 0 {
                    d.title
                } else {
                    d.identifier
                },
                68,
            ))
            &&& crate::text::ends(body[3 * docs.len() as int + 1], "  "@ + d.identifier)
        }),
{
    assert(docs.push(d).drop_last() == docs);
    assert(docs.push(d).last() == d);
    lemma_body_len(docs);
    let n = (docs.len() + 1) as int;
    lemma_doc_shown(n, d);
    let (a, b) = doc_text(n, d);
    let body = list_body(docs.push(d));
    let k = 3 * docs.len() as int;
    assert(body.take(k) =~= list_body(docs));
    assert(body[k] == "  "@ + a && body[k + 1] == "  "@ + b);
}

proof fn lemma_doc_shown(n: int, d: DocV)
    ensures
        has("  "@ + doc_text(n, d).0, dec(n) + ".  "@ + first_n(doc_title(d), 68)),
        crate::text::ends("  "@ + doc_text(n, d).1, "  "@ + d.identifier),
{
    lemma_numbered("  "@, dec(n), ".  "@, first_n(doc_title(d), 68));
    lemma_closed("  "@, "    "@, doc_meta(d), "  "@, d.identifier);
}

proof fn lemma_numbered(a: Seq<char>, num: Seq<char>, dot: Seq<char>, t: Seq<char>)
    ensures
        has(a + (pad(num, 2) + dot + t), num + dot + t),
{
    let gap = pad(num, 2).take(pad(num, 2).len() - num.len());
    assert(pad(num, 2) =~= gap + num);
    lemma_regroup(a, gap, num, dot, t);
}

proof fn lemma_regroup(a: Seq<char>, gap: Seq<char>, num: Seq<char>, dot: Seq<char>, t: Seq<char>)
    ensures
        has(a + (gap + num + dot + t), num + dot + t),
{
    let tail = num + dot + t;
    let all = a + (gap + num + dot + t);
    assert(gap + num + dot + t =~= gap + tail);
    assert(all =~= (a + gap) + tail);
    crate::text::law_has_is_contains(a + gap, tail, Seq::empty());
    assert((a + gap) + tail + Seq::<char>::empty() =~= (a + gap) + tail);
}

proof fn lemma_closed(a: Seq<char>, b: Seq<char>, c: Seq<char>, d: Seq<char>, e: Seq<char>)
    ensures
        crate::text::ends(a + (b + c + d + e), d + e),
{
    let tail = d + e;
    let head = b + c;
    assert(b + c + d + e =~= head + tail);
    let front = a + head;
    assert(a + (head + tail) =~= front + tail);
    crate::text::law_has_is_contains(front, tail, Seq::empty());
}

proof fn lemma_body_len(docs: Seq<DocV>)
    ensures
        list_body(docs).len() == 3 * docs.len(),
    decreases docs.len(),
{
    if docs.len() > 0 {
        lemma_body_len(docs.drop_last());
    }
}

/// ccMixter is searched where the kind is one of its names, in any case, and the archive else.
pub proof fn law_ccmixter_is_named(k: Seq<char>)
    ensures
        on_ccmixter(Some(k)) <==> seq!["ccmixter"@, "cc"@, "remix"@, "remixes"@, "mixter"@].contains(lower(k)),
        !on_ccmixter(None),
{
    let names = seq!["ccmixter"@, "cc"@, "remix"@, "remixes"@, "mixter"@];
    assert(names[0] == "ccmixter"@ && names[1] == "cc"@ && names[2] == "remix"@ && names[3] == "remixes"@ && names[4]
        == "mixter"@);
}

/// ccMixter is asked for its uploads, and for the words where there are any, without the white
/// space around them; the number of matches is the one that it gives, alone or first in a list.
pub proof fn law_ccmixter_is_asked(q: Seq<char>, text: Seq<char>, n: crate::json::NumV, a: Seq<JsonV>, page: u32)
    ensures
        !blank(q) ==> cc_base(q) == "https://ccmixter.org/api/query?datasource=uploads&search_type=any"@ + "&search="@
            + query_text(trim(q)),
        blank(q) ==> cc_base(q) == "https://ccmixter.org/api/query?datasource=uploads&search_type=any"@,
        parsed_or_null(text) == JsonV::Num(n) && n.uint is Some ==> cc_count(text) == n.uint->0,
        parsed_or_null(text) == JsonV::Arr(seq![JsonV::Num(n)] + a) && n.uint is Some ==> cc_count(text) == n.uint->0,
        parsed_or_null(text) == JsonV::Arr(Seq::empty()) ==> cc_count(text) == 0,
        parsed_or_null(text) == JsonV::Null ==> cc_count(text) == 0,
        page >= 1 ==> page_number(page) == page,
        page == 0 ==> page_number(page) == 1,
{
    assert((seq![JsonV::Num(n)] + a)[0] == JsonV::Num(n));
}

/// The list of results says what was searched for, how many matches there are and how many of them
/// are shown, then each result, and last what can be done; where nothing was found it says so.
pub proof fn law_list_says(t: TroveV)
    ensures
        list_lines(t).len() >= 5,
        on_ccmixter(t.kind) ==> list_lines(t)[1] == "  query:   "@ + ("ccmixter "@ + join(t.words, " "@)),
        !on_ccmixter(t.kind) ==> list_lines(t)[1] == "  query:   "@ + archive_query(t.kind, t.words),
        list_lines(t)[2] == "  matches: "@ + dec(t.num_found as int) + "  ·  showing "@ + dec(t.docs.len() as int),
        t.docs.len() == 0 ==> list_lines(t).last() == "  No results. Try different words."@,
        t.docs.len() > 0 ==> list_lines(t).subrange(4, (4 + list_body(t.docs).len()) as int) == list_body(t.docs),
        t.docs.len() > 0 && t.num_found > t.docs.len() ==> list_lines(t)[list_lines(t).len() - 2]
            == "  [1-N] download   [a] all listed   [m] more   [s] search again   [q] quit"@,
        t.docs.len() > 0 && 0 < t.num_found <= t.docs.len() ==> list_lines(t)[list_lines(t).len() - 2]
            == "  [1-N] download   [a] all listed   [s] search again   [q] quit"@,
{
    if t.docs.len() > 0 {
        assert(list_lines(t).subrange(4, (4 + list_body(t.docs).len()) as int) =~= list_body(t.docs));
    }
}

/// A kind narrows the search to its media type, and to the subjects and collections that it is
/// found by, where it has any; the name of a media type narrows it to that alone.
pub proof fn law_kinds_narrow_the_search(k: Seq<char>, mt: Seq<char>, hint: Seq<char>)
    ensures
        kind_of(lower(lower(k))) == Some((mt, hint)) && hint.len() > 0 ==> kind_parts(Some(k)) == seq![
            "mediatype:("@ + mt + ")"@,
            hint,
        ],
        kind_of(lower(lower(k))) == Some((mt, hint)) && hint.len() == 0 ==> kind_parts(Some(k)) == seq![
            "mediatype:("@ + mt + ")"@,
        ],
        kind_of(lower(lower(k))) is None && lower(k) == "audio"@ ==> kind_parts(Some(k)) == seq!["mediatype:(audio)"@],
        kind_of(lower(lower(k))) is None && (lower(k) == "movies"@ || lower(k) == "films"@) ==> kind_parts(Some(k)) == seq![
            "mediatype:(movies)"@,
        ],
        kind_of(lower(lower(k))) is None && lower(k) != "audio"@ && lower(k) != "movies"@ && lower(k) != "films"@ ==> kind_parts(
            Some(k),
        ).len() == 0,
        kind_parts(None).len() == 0,
{
    reveal_strlit("audio");
    reveal_strlit("movies");
    assert("audio"@.len() == 5 && "movies"@.len() == 6);
    reveal_strlit("films");
    assert("films"@[0] != "audio"@[0]);
}

/// An answer that cannot be read is an error that says why; what can be read is what was found.
pub proof fn law_answer_is_read(text: Seq<char>, v: JsonV, e: Seq<char>, c: CcSearchV)
    ensures
        json_parsed(text) == Ok::<JsonV, Seq<char>>(v) ==> search_result(text) == Ok::<(Seq<DocV>, u64), Seq<char>>(found_in(v)),
        json_parsed(text) == Err::<JsonV, Seq<char>>(e) ==> search_result(text) == Err::<(Seq<DocV>, u64), Seq<char>>("json: "@ + e),
        c.end - c.off >= 10 ==> c.limit() == 10,
        c.end - c.off < 10 ==> c.limit() == c.end - c.off,
        is_cc_ident("ccmixter:"@ + text),
        !starts(text, "ccmixter:"@) ==> !is_cc_ident(text),
{
    crate::text::law_has_is_contains(Seq::empty(), "ccmixter:"@, text);
}

/// Without an answer nothing was found; an upload is known by its number, whether that is given as
/// a number or as a text.
pub proof fn law_nothing_is_found(v: JsonV, id: JsonV, n: u64)
    ensures
        v.get("response"@) is None ==> found_in(v).0.len() == 0 && found_in(v).1 == 0,
        v.get("upload_id"@) == Some(JsonV::Str(dec(n as int))) ==> upload_id(v) == Some(n),
        v.get("upload_id"@) == Some(id) && id.as_u64() == Some(n) ==> upload_id(v) == Some(n),
        v.get("upload_id"@) is None ==> upload_id(v) is None,
{
    crate::nums::law_dec_reads_back(n as int, 0, u64::MAX as int);
}

} // verus!
