//! Community radio stations from radio-browser.info.
//!
//! Lists are put in alphabetical order here, case aside: the server's order is not relied
//! on. The fetching belongs to the caller, who hands the texts that came back.

use vstd::prelude::*;
use crate::json::{
    int_v, json_arr, json_compact, json_obj, json_parsed, json_str, json_u64, jsons, member_of, members, parse,
    parse_or_null, parsed_or_null, plain, reads_as, render, value_stored, Json, JsonV,
};
use crate::nums::{dec, dec_usize};
use crate::order::{
    in_order, key_le, law_sorted, lemma_sorted_map, name_key, name_sort_key, put_sorted, sort_items, sorted_by, KeyV,
    SortKey,
};
use crate::queue::{ItemV, QueueItem};
use crate::text::{
    cat2, cat3, cat7, chars_of, find_at, find_from, has_char, law_trim_twice, lemma_filter_take, lemma_find_first, lower, lowered,
    opt_copy, opt_view, same, slice_of, starts, starts_with, trim, trimmed, views, words, words_of,
};
use crate::urls::{path_text, percent_encode_path};

verus! {

/// How many stations a page shows.
pub const PAGE_SIZE: usize = 20;

/// How close to the end of the list the next page is fetched.
pub const PREFETCH_WITHIN: usize = 6;

/// A radio station.
pub struct Station {
    pub uuid: String,
    pub name: String,
    pub url: String,
    pub codec: String,
    pub bitrate: u64,
    pub tags: String,
    pub country: String,
}

/// The model of a [`Station`].
#[verifier::ext_equal]
pub struct StationV {
    pub uuid: Seq<char>,
    pub name: Seq<char>,
    pub url: Seq<char>,
    pub codec: Seq<char>,
    pub bitrate: u64,
    pub tags: Seq<char>,
    pub country: Seq<char>,
}

impl View for Station {
    type V = StationV;

    open spec fn view(&self) -> StationV {
        StationV {
            uuid: self.uuid@,
            name: self.name@,
            url: self.url@,
            codec: self.codec@,
            bitrate: self.bitrate,
            tags: self.tags@,
            country: self.country@,
        }
    }
}

/// The models of a list of stations.
pub open spec fn stations_view(v: Seq<Station>) -> Seq<StationV> {
    v.map_values(|s: Station| s@)
}

impl Station {
    /// A copy.
    pub fn copy(&self) -> (s: Station)
        ensures
            s@ == self@,
    {
        Station {
            uuid: self.uuid.clone(),
            name: self.name.clone(),
            url: self.url.clone(),
            codec: self.codec.clone(),
            bitrate: self.bitrate,
            tags: self.tags.clone(),
            country: self.country.clone(),
        }
    }
}

/// A country and how many stations it has.
pub struct Country {
    pub name: String,
    pub count: u64,
}

/// The model of a [`Country`].
#[verifier::ext_equal]
pub struct CountryV {
    pub name: Seq<char>,
    pub count: u64,
}

impl View for Country {
    type V = CountryV;

    open spec fn view(&self) -> CountryV {
        CountryV { name: self.name@, count: self.count }
    }
}

/// The models of a list of countries.
pub open spec fn countries_view(v: Seq<Country>) -> Seq<CountryV> {
    v.map_values(|c: Country| c@)
}

// ---- fetching ----

/// The server that is asked first.
pub open spec fn first_base() -> Seq<char> {
    "https://de1.api.radio-browser.info/json"@
}

/// The server that is asked when the first one fails.
pub open spec fn second_base() -> Seq<char> {
    "https://de2.api.radio-browser.info/json"@
}

/// `s` with the first `from` in it replaced by `to`; `None` where there is none.
pub open spec fn replaced_first(s: Seq<char>, from: Seq<char>, to: Seq<char>) -> Option<Seq<char>> {
    match find_from(s, from, 0) {
        Some(i) => Some(s.take(i) + to + s.skip(i + from.len())),
        None => None,
    }
}

/// The address at the second server; `None` for one that is not at the first.
pub fn curl_text(url: &str) -> (r: Option<String>)
    ensures
        opt_view(r) == replaced_first(url@, first_base(), second_base()),
{
    let v = chars_of(url);
    let base = chars_of("https://de1.api.radio-browser.info/json");
    proof {
        lemma_find_first(v@, base@, 0);
    }
    match find_at(&v, &base, 0) {
        Some(i) => {
            let head = slice_of(&v, 0, i);
            let tail = slice_of(&v, i + base.len(), v.len());
            proof {
                assert(head@ == url@.take(i as int));
                assert(tail@ == url@.skip(i + base.len()));
            }
            Some(cat3(head.as_str(), "https://de2.api.radio-browser.info/json", tail.as_str()))
        },
        None => None,
    }
}

/// What is reported when both servers fail; `first` is what the first one said.
pub fn both_down(first: &str) -> (s: String)
    ensures
        s@ == "radio api down ("@ + first@ + ")"@,
{
    cat3("radio api down (", first, ")")
}

// ---- stations ----

/// The key by which stations are ordered: the name in lower case.
pub open spec fn station_key() -> spec_fn(StationV) -> KeyV {
    |s: StationV| name_key(lower(s.name))
}

/// Puts stations in the order of their names, case aside.
pub fn by_name(v: Vec<Station>) -> (r: Vec<Station>)
    ensures
        stations_view(r@) == sorted_by(stations_view(v@), station_key()),
{
    let mut v = v;
    let mut keys: Vec<SortKey> = Vec::new();
    let ghost raw = |s: Station| name_key(lower(s.name@));
    for i in 0..v.len()
        invariant
            keys.len() == i,
            raw == (|s: Station| name_key(lower(s.name@))),
            forall|j: int| 0 <= j < i ==> (#[trigger] keys@[j])@ == raw(v@[j]),
    {
        keys.push(name_sort_key(lowered(v[i].name.as_str()).as_str()));
    }
    let ghost all = v@;
    sort_items(&mut v, keys, Ghost(raw));
    proof {
        lemma_sorted_map(all, |s: Station| s@, raw, station_key());
    }
    v
}

/// Where a station streams: as it was resolved, else as it was given.
pub open spec fn stream_url(v: JsonV) -> Seq<char> {
    match v.str_at("url_resolved"@) {
        Some(u) => if u.len() > 0 {
            u
        } else {
            v.str_or("url"@, ""@)
        },
        None => v.str_or("url"@, ""@),
    }
}

/// Whether the last check of a station failed.
pub open spec fn check_failed(v: JsonV) -> bool {
    v.i64_at("lastcheckok"@) == Some(0i64)
}

/// A station as the server describes it, if it streams by `http` or `https` and has not
/// failed its last check.
pub open spec fn station_of(v: JsonV) -> Option<StationV> {
    let url = stream_url(v);
    if !(starts(url, "http://"@) || starts(url, "https://"@)) || check_failed(v) {
        None
    } else {
        Some(
            StationV {
                uuid: v.str_or("stationuuid"@, ""@),
                name: trim(v.str_or("name"@, url)),
                url,
                codec: v.str_or("codec"@, ""@),
                bitrate: match v.u64_at("bitrate"@) {
                    Some(n) => n,
                    None => 0,
                },
                tags: v.str_or("tags"@, ""@),
                country: v.str_or("country"@, ""@),
            },
        )
    }
}

/// A station as the server describes it.
pub fn to_station(v: &Json) -> (r: Option<Station>)
    ensures
        match r {
            Some(s) => station_of(v@) == Some(s@),
            None => station_of(v@) is None,
        },
{
    let url = match v.str_at("url_resolved") {
        Some(u) => {
            if u.is_empty() {
                v.str_or("url", "")
            } else {
                u.to_owned()
            }
        },
        None => v.str_or("url", ""),
    };
    if !(starts_with(url.as_str(), "http://") || starts_with(url.as_str(), "https://")) {
        return None;
    }
    match v.i64_at("lastcheckok") {
        Some(n) => {
            if n == 0 {
                return None;
            }
        },
        None => {},
    }
    let bitrate: u64 = match v.u64_at("bitrate") {
        Some(n) => n,
        None => 0,
    };
    Some(
        Station {
            uuid: v.str_or("stationuuid", ""),
            name: trimmed(v.str_or("name", url.as_str()).as_str()),
            url: url.clone(),
            codec: v.str_or("codec", ""),
            bitrate,
            tags: v.str_or("tags", ""),
            country: v.str_or("country", ""),
        },
    )
}

/// The stations that the server lists.
pub open spec fn stations_in(a: Seq<JsonV>) -> Seq<StationV>
    decreases a.len(),
{
    if a.len() == 0 {
        Seq::empty()
    } else {
        match station_of(a.last()) {
            Some(s) => stations_in(a.drop_last()).push(s),
            None => stations_in(a.drop_last()),
        }
    }
}

/// The stations in an answer, by name; none where it cannot be read.
pub open spec fn parsed_stations(text: Seq<char>) -> Seq<StationV> {
    sorted_by(stations_in(parsed_or_null(text).items()), station_key())
}

/// The stations in an answer, by name.
pub fn parse_stations(text: &str) -> (r: Vec<Station>)
    ensures
        stations_view(r@) == parsed_stations(text@),
{
    let v = parse_or_null(text);
    let mut out: Vec<Station> = Vec::new();
    match v.as_arr() {
        Some(a) => {
            let ghost all = jsons(a@);
            assert(stations_view(out@) == stations_in(all.take(0)));
            for i in 0..a.len()
                invariant
                    all == jsons(a@),
                    stations_view(out@) == stations_in(all.take(i as int)),
            {
                proof {
                    assert(all.take(i + 1).drop_last() == all.take(i as int));
                    assert(all.take(i + 1).last() == a@[i as int]@);
                }
                let ghost before = stations_view(out@);
                match to_station(&a[i]) {
                    Some(s) => {
                        out.push(s);
                        assert(stations_view(out@) == before.push(s@));
                    },
                    None => {},
                }
            }
            assert(all.take(a.len() as int) == all);
        },
        None => {
            assert(stations_view(out@) == stations_in(Seq::<JsonV>::empty()));
        },
    }
    by_name(out)
}

/// The address of a page of a country's stations.
pub fn by_country_url(country: &str, limit: usize, offset: usize) -> (s: String)
    ensures
        s@ == first_base() + "/stations/bycountry/"@ + path_text(country@) + "?order=name&limit="@ + dec(limit as int)
            + "&offset="@ + dec(offset as int),
{
    cat7(
        "https://de1.api.radio-browser.info/json",
        "/stations/bycountry/",
        percent_encode_path(country).as_str(),
        "?order=name&limit=",
        dec_usize(limit).as_str(),
        "&offset=",
        dec_usize(offset).as_str(),
    )
}

/// A page of a country's stations, from the text that came back.
pub fn by_country(text: &str) -> (r: Vec<Station>)
    ensures
        stations_view(r@) == parsed_stations(text@),
{
    parse_stations(text)
}

/// The address of a page of a search by name.
pub open spec fn search_address(query: Seq<char>, limit: int, offset: int) -> Seq<char> {
    first_base() + "/stations/search?name="@ + path_text(query) + "&order=name&limit="@ + dec(limit) + "&offset="@
        + dec(offset)
}

/// The address of a page of a search by name.
pub fn search_url(query: &str, limit: usize, offset: usize) -> (s: String)
    ensures
        s@ == search_address(query@, limit as int, offset as int),
{
    cat7(
        "https://de1.api.radio-browser.info/json",
        "/stations/search?name=",
        percent_encode_path(query).as_str(),
        "&order=name&limit=",
        dec_usize(limit).as_str(),
        "&offset=",
        dec_usize(offset).as_str(),
    )
}

/// The words that are looked for one by one, because the whole query found nothing: none
/// where it found something, where it is one word, or beyond the first page.
pub open spec fn fallback_words(query: Seq<char>, found: int, offset: int) -> Seq<Seq<char>> {
    if found > 0 || offset > 0 || !trim(query).contains(' ') {
        Seq::empty()
    } else {
        words(query)
    }
}

/// The words that are looked for one by one, because the whole query found nothing.
pub fn fallback_tokens(query: &str, found: usize, offset: usize) -> (r: Vec<String>)
    ensures
        views(r@) == fallback_words(query@, found as int, offset as int),
{
    if found > 0 || offset > 0 || !has_char(trimmed(query).as_str(), ' ') {
        let r: Vec<String> = Vec::new();
        assert(views(r@) == Seq::<Seq<char>>::empty());
        return r;
    }
    words_of(query)
}

/// Whether a station is in a list: by its identifier, if the listed one has any, or by its
/// address.
pub open spec fn is_listed(list: Seq<StationV>, s: StationV) -> bool {
    exists|i: int|
        0 <= i < list.len() && (((#[trigger] list[i]).uuid.len() > 0 && list[i].uuid == s.uuid) || list[i].url == s.url)
}

/// A list with more stations behind it, but for those that are in it.
pub open spec fn merged(list: Seq<StationV>, more: Seq<StationV>) -> Seq<StationV>
    decreases more.len(),
{
    if more.len() == 0 {
        list
    } else {
        let front = merged(list, more.drop_last());
        if is_listed(front, more.last()) {
            front
        } else {
            front.push(more.last())
        }
    }
}

fn listed(list: &Vec<Station>, s: &Station) -> (r: bool)
    ensures
        r == is_listed(stations_view(list@), s@),
{
    let ghost all = stations_view(list@);
    for i in 0..list.len()
        invariant
            all == stations_view(list@),
            forall|j: int|
                0 <= j < i ==> !(((#[trigger] all[j]).uuid.len() > 0 && all[j].uuid == s@.uuid) || all[j].url == s@.url),
    {
        assert(all[i as int] == list@[i as int]@);
        let by_uuid = !list[i].uuid.as_str().is_empty() && same(list[i].uuid.as_str(), s.uuid.as_str());
        if by_uuid || same(list[i].url.as_str(), s.url.as_str()) {
            return true;
        }
    }
    false
}

/// Puts more stations into a list, but for those that are in it.
pub fn merge(list: &mut Vec<Station>, more: &Vec<Station>)
    ensures
        stations_view(final(list)@) == merged(stations_view(old(list)@), stations_view(more@)),
{
    let ghost all = stations_view(more@);
    let ghost start = stations_view(list@);
    assert(all.take(0) == Seq::<StationV>::empty());
    for i in 0..more.len()
        invariant
            all == stations_view(more@),
            stations_view(list@) == merged(start, all.take(i as int)),
    {
        proof {
            assert(all.take(i + 1).drop_last() == all.take(i as int));
            assert(all.take(i + 1).last() == more@[i as int]@);
        }
        let ghost before = stations_view(list@);
        if !listed(&*list, &more[i]) {
            list.push(more[i].copy());
            assert(stations_view(list@) == before.push(more@[i as int]@));
        }
    }
    assert(all.take(more.len() as int) == all);
}

/// At most the first `n`.
pub open spec fn first_stations(v: Seq<StationV>, n: int) -> Seq<StationV> {
    if v.len() <= n {
        v
    } else {
        v.take(n)
    }
}

/// The merged stations by name, as many as a page has.
fn shortened(merged: Vec<Station>, limit: usize) -> (r: Vec<Station>)
    ensures
        stations_view(r@) == first_stations(sorted_by(stations_view(merged@), station_key()), limit as int),
{
    let mut r = by_name(merged);
    let ghost all = stations_view(r@);
    assert(all.len() == r.len());
    if r.len() > limit {
        r.truncate(limit);
    }
    assert(stations_view(r@) == first_stations(all, limit as int));
    r
}

/// The stations in several answers, each once.
pub open spec fn merged_answers(texts: Seq<Seq<char>>) -> Seq<StationV>
    decreases texts.len(),
{
    if texts.len() == 0 {
        Seq::empty()
    } else {
        merged(merged_answers(texts.drop_last()), parsed_stations(texts.last()))
    }
}

/// What a search comes to.
pub enum SearchStep {
    /// The text at this address is needed.
    Fetch(String),
    /// These stations were found.
    Found(Vec<Station>),
}

/// The model of a [`SearchStep`].
#[verifier::ext_equal]
pub enum SearchStepV {
    Fetch(Seq<char>),
    Found(Seq<StationV>),
}

impl View for SearchStep {
    type V = SearchStepV;

    open spec fn view(&self) -> SearchStepV {
        match self {
            SearchStep::Fetch(u) => SearchStepV::Fetch(u@),
            SearchStep::Found(v) => SearchStepV::Found(stations_view(v@)),
        }
    }
}

/// What a search comes to, given the texts that came back so far. The whole query is looked
/// for; where that finds nothing, each of its words is, and what they find is merged, put in
/// the order of the names and cut to a page.
pub open spec fn search_step(query: Seq<char>, limit: int, offset: int, texts: Seq<Seq<char>>) -> SearchStepV {
    if texts.len() == 0 {
        SearchStepV::Fetch(search_address(query, limit, offset))
    } else {
        let first = parsed_stations(texts[0]);
        let ws = fallback_words(query, first.len() as int, offset);
        if ws.len() == 0 {
            SearchStepV::Found(first)
        } else if texts.len() <= ws.len() {
            SearchStepV::Fetch(search_address(ws[texts.len() - 1], limit, 0))
        } else {
            SearchStepV::Found(first_stations(sorted_by(merged_answers(texts.skip(1)), station_key()), limit))
        }
    }
}

/// What a search comes to, given the texts that came back so far, in their order.
pub fn search(query: &str, limit: usize, offset: usize, texts: &Vec<String>) -> (r: SearchStep)
    ensures
        r@ == search_step(query@, limit as int, offset as int, views(texts@)),
{
    let n: usize = texts.len();
    assert(views(texts@).len() == n);
    if n == 0 {
        return SearchStep::Fetch(search_url(query, limit, offset));
    }
    let first = parse_stations(texts[0].as_str());
    assert(stations_view(first@).len() == first.len());
    let ws = fallback_tokens(query, first.len(), offset);
    assert(views(ws@).len() == ws.len());
    if ws.len() == 0 {
        return SearchStep::Found(first);
    }
    if n <= ws.len() {
        return SearchStep::Fetch(search_url(ws[n - 1].as_str(), limit, 0));
    }
    let mut list: Vec<Station> = Vec::new();
    let ghost rest = views(texts@).skip(1);
    proof {
        assert(rest.take(0) == Seq::<Seq<char>>::empty());
        assert(stations_view(list@) == Seq::<StationV>::empty());
    }
    let mut i: usize = 1;
    while i < n
        invariant
            1 <= i <= n,
            n == texts.len(),
            rest == views(texts@).skip(1),
            stations_view(list@) == merged_answers(rest.take(i - 1)),
        decreases n - i,
    {
        proof {
            assert(rest.take(i as int).drop_last() == rest.take(i - 1));
            assert(rest.take(i as int).last() == texts@[i as int]@);
        }
        let more = parse_stations(texts[i].as_str());
        merge(&mut list, &more);
        i = i + 1;
    }
    assert(rest.take(n - 1) == rest);
    SearchStep::Found(shortened(list, limit))
}

// ---- countries ----

/// The key by which countries are ordered: the name in lower case.
pub open spec fn country_key() -> spec_fn(CountryV) -> KeyV {
    |c: CountryV| name_key(lower(c.name))
}

/// A country as it is described, if it has a name; `key` says where its count stands.
pub open spec fn country_of(v: JsonV, key: Seq<char>) -> Option<CountryV> {
    match v.str_at("name"@) {
        Some(n) => if trim(n).len() == 0 {
            None
        } else {
            Some(
                CountryV {
                    name: trim(n),
                    count: match v.u64_at(key) {
                        Some(c) => c,
                        None => 0,
                    },
                },
            )
        },
        None => None,
    }
}

/// The countries that are listed.
pub open spec fn countries_in(a: Seq<JsonV>, key: Seq<char>) -> Seq<CountryV>
    decreases a.len(),
{
    if a.len() == 0 {
        Seq::empty()
    } else {
        match country_of(a.last(), key) {
            Some(c) => countries_in(a.drop_last(), key).push(c),
            None => countries_in(a.drop_last(), key),
        }
    }
}

/// The countries that are listed, by name.
pub open spec fn country_list(a: Seq<JsonV>, key: Seq<char>) -> Seq<CountryV> {
    sorted_by(countries_in(a, key), country_key())
}

fn read_countries(a: &Vec<Json>, key: &str) -> (r: Vec<Country>)
    ensures
        countries_view(r@) == country_list(jsons(a@), key@),
{
    let mut out: Vec<Country> = Vec::new();
    let mut keys: Vec<SortKey> = Vec::new();
    let ghost raw = |c: Country| name_key(lower(c.name@));
    let ghost all = jsons(a@);
    assert(countries_view(out@) == countries_in(all.take(0), key@));
    for i in 0..a.len()
        invariant
            all == jsons(a@),
            raw == (|c: Country| name_key(lower(c.name@))),
            keys.len() == out.len(),
            forall|j: int| 0 <= j < out.len() ==> (#[trigger] keys@[j])@ == raw(out@[j]),
            countries_view(out@) == countries_in(all.take(i as int), key@),
    {
        proof {
            assert(all.take(i + 1).drop_last() == all.take(i as int));
            assert(all.take(i + 1).last() == a@[i as int]@);
        }
        let ghost before = countries_view(out@);
        match a[i].str_at("name") {
            Some(n) => {
                let name = trimmed(n);
                if !name.as_str().is_empty() {
                    let count: u64 = match a[i].u64_at(key) {
                        Some(c) => c,
                        None => 0,
                    };
                    keys.push(name_sort_key(lowered(name.as_str()).as_str()));
                    let c = Country { name, count };
                    out.push(c);
                    assert(countries_view(out@) == before.push(c@));
                }
            },
            None => {},
        }
    }
    assert(all.take(a.len() as int) == all);
    let ghost found = out@;
    sort_items(&mut out, keys, Ghost(raw));
    proof {
        lemma_sorted_map(found, |c: Country| c@, raw, country_key());
    }
    out
}

/// Whether a time stamp is less than a week old; one from the future counts as new.
pub open spec fn is_fresh(ts: u64, now: u64) -> bool {
    now - ts < 7 * 86400
}

/// The stored countries, if they are fresh and there are any. `now` is `None` where the
/// clock cannot be read.
pub open spec fn stored_countries(raw: Seq<char>, now: Option<u64>) -> Option<Seq<CountryV>> {
    let v = parsed_or_null(raw);
    match (v.u64_at("ts"@), now) {
        (Some(ts), Some(n)) => if is_fresh(ts, n) && country_list(v.items_at("countries"@), "count"@).len() > 0 {
            Some(country_list(v.items_at("countries"@), "count"@))
        } else {
            None
        },
        _ => None,
    }
}

/// The stored countries, if they are fresh and there are any.
pub fn cached_countries(raw: &str, now: Option<u64>) -> (r: Option<Vec<Country>>)
    ensures
        match r {
            Some(cs) => stored_countries(raw@, now) == Some(countries_view(cs@)),
            None => stored_countries(raw@, now) is None,
        },
{
    let v = parse_or_null(raw);
    match (v.u64_at("ts"), now) {
        (Some(ts), Some(n)) => {
            let fresh = n < ts || n - ts < 604800;
            if !fresh {
                return None;
            }
            match v.arr_at("countries") {
                Some(a) => {
                    let out = read_countries(a, "count");
                    assert(countries_view(out@).len() == out.len());
                    if out.len() > 0 {
                        Some(out)
                    } else {
                        None
                    }
                },
                None => {
                    assert(country_list(Seq::<JsonV>::empty(), "count"@).len() == 0);
                    None
                },
            }
        },
        _ => None,
    }
}

/// The address of the list of countries.
pub fn countries_url() -> (s: String)
    ensures
        s@ == first_base() + "/countries?order=stationcount&reverse=true"@,
{
    cat2("https://de1.api.radio-browser.info/json", "/countries?order=stationcount&reverse=true")
}

/// The countries in an answer, or why it cannot be read.
pub open spec fn fetched_countries(text: Seq<char>) -> Result<Seq<CountryV>, Seq<char>> {
    match json_parsed(text) {
        Ok(v) => Ok(country_list(v.items(), "stationcount"@)),
        Err(e) => Err("json: "@ + e),
    }
}

/// The countries and their station counts, by name, from the text that came back.
pub fn countries(text: &str) -> (r: Result<Vec<Country>, String>)
    ensures
        match r {
            Ok(cs) => fetched_countries(text@) == Ok::<Seq<CountryV>, Seq<char>>(countries_view(cs@)),
            Err(e) => fetched_countries(text@) == Err::<Seq<CountryV>, Seq<char>>(e@),
        },
{
    match parse(text) {
        Ok(v) => {
            match v.as_arr() {
                Some(a) => Ok(read_countries(a, "stationcount")),
                None => {
                    let none: Vec<Country> = Vec::new();
                    assert(countries_view(none@) == country_list(Seq::<JsonV>::empty(), "stationcount"@));
                    Ok(none)
                },
            }
        },
        Err(e) => Err(cat2("json: ", e.as_str())),
    }
}

/// The stored form of the countries.
pub open spec fn countries_json(cs: Seq<CountryV>, ts: u64) -> JsonV {
    JsonV::Obj(
        seq![
            ("countries"@, JsonV::Arr(cs.map_values(|c: CountryV| country_json(c)))),
            ("ts"@, int_v(ts as int)),
        ],
    )
}

/// The stored form of a country.
pub open spec fn country_json(c: CountryV) -> JsonV {
    JsonV::Obj(seq![("count"@, int_v(c.count as int)), ("name"@, JsonV::Str(c.name))])
}

/// The text that the countries are stored as.
pub fn store_countries(cs: &Vec<Country>, ts: u64) -> (s: String)
    ensures
        s@ == json_compact(value_stored(countries_json(countries_view(cs@), ts))),
        reads_as(s@, countries_json(countries_view(cs@), ts)),
{
    proof {
        lemma_countries_plain(countries_view(cs@), ts);
    }
    let mut a: Vec<Json> = Vec::new();
    for i in 0..cs.len()
        invariant
            a.len() == i,
            forall|k: int| 0 <= k < i ==> (#[trigger] a@[k])@ == country_json(cs@[k]@),
    {
        let mut o: Vec<(String, Json)> = Vec::new();
        o.push(member_of("count", json_u64(cs[i].count)));
        o.push(member_of("name", json_str(cs[i].name.as_str())));
        assert(members(o@) == country_json(cs@[i as int]@)->Obj_0);
        a.push(json_obj(o));
    }
    let ghost all = jsons(a@);
    let mut o: Vec<(String, Json)> = Vec::new();
    o.push(member_of("countries", json_arr(a)));
    o.push(member_of("ts", json_u64(ts)));
    proof {
        let want = countries_json(countries_view(cs@), ts);
        assert(all == want->Obj_0[0].1->Arr_0);
        assert(members(o@) == want->Obj_0);
    }
    render(&json_obj(o))
}

// ---- the queue ----

/// A station as a track of the queue.
pub open spec fn station_item(s: StationV) -> ItemV {
    ItemV {
        path: s.url,
        display: s.name,
        title: s.name,
        artist: if s.country.len() == 0 {
            "Radio"@
        } else {
            "Radio · "@ + s.country
        },
        duration: "0.0"@,
    }
}

/// A station as a track of the queue.
pub fn to_queue_item(s: &Station) -> (it: QueueItem)
    ensures
        it@ == station_item(s@),
{
    let artist = if s.country.as_str().is_empty() {
        "Radio".to_owned()
    } else {
        cat2("Radio · ", s.country.as_str())
    };
    QueueItem {
        path: s.url.clone(),
        display: s.name.clone(),
        title: s.name.clone(),
        artist,
        duration: "0.0".to_owned(),
    }
}

// ---- favourites ----

/// What is remembered: the last country, and the favourites.
pub struct RadioState {
    pub country: Option<String>,
    pub favs: Vec<Station>,
}

/// The model of a [`RadioState`].
#[verifier::ext_equal]
pub struct RadioStateV {
    pub country: Option<Seq<char>>,
    pub favs: Seq<StationV>,
}

impl View for RadioState {
    type V = RadioStateV;

    open spec fn view(&self) -> RadioStateV {
        RadioStateV { country: opt_view(self.country), favs: stations_view(self.favs@) }
    }
}

/// The last country.
pub fn last_country(st: &RadioState) -> (r: Option<String>)
    ensures
        opt_view(r) == st@.country,
{
    opt_copy(&st.country)
}

/// Remembers a country.
pub fn set_country(st: &mut RadioState, name: &str)
    ensures
        final(st)@ == (RadioStateV { country: Some(name@), ..old(st)@ }),
{
    st.country = Some(name.to_owned());
}

/// The favourites, by name.
pub fn favs(st: &RadioState) -> (r: Vec<Station>)
    ensures
        stations_view(r@) == sorted_by(st@.favs, station_key()),
{
    let mut v: Vec<Station> = Vec::new();
    for i in 0..st.favs.len()
        invariant
            v.len() == i,
            forall|j: int| 0 <= j < i ==> (#[trigger] v@[j])@ == st.favs@[j]@,
    {
        v.push(st.favs[i].copy());
    }
    assert(stations_view(v@) == st@.favs);
    by_name(v)
}

/// Whether a favourite has the station's identifier.
pub open spec fn fav_by_uuid(favs: Seq<StationV>, s: StationV) -> bool {
    s.uuid.len() > 0 && exists|i: int| 0 <= i < favs.len() && (#[trigger] favs[i]).uuid == s.uuid
}

/// Whether a favourite has the station's address.
pub open spec fn fav_by_url(favs: Seq<StationV>, s: StationV) -> bool {
    exists|i: int| 0 <= i < favs.len() && (#[trigger] favs[i]).url == s.url
}

/// The favourites after a toggle: those of the station's identifier are dropped, if there
/// are any; else those of its address; else it is added.
pub open spec fn fav_toggled(favs: Seq<StationV>, s: StationV) -> Seq<StationV> {
    if fav_by_uuid(favs, s) {
        favs.filter(|f: StationV| f.uuid != s.uuid)
    } else if fav_by_url(favs, s) {
        favs.filter(|f: StationV| f.url != s.url)
    } else {
        favs.push(s)
    }
}

fn any_uuid(favs: &Vec<Station>, s: &Station) -> (r: bool)
    ensures
        r == fav_by_uuid(stations_view(favs@), s@),
{
    if s.uuid.as_str().is_empty() {
        return false;
    }
    let ghost all = stations_view(favs@);
    for i in 0..favs.len()
        invariant
            s@.uuid.len() > 0,
            all == stations_view(favs@),
            forall|j: int| 0 <= j < i ==> (#[trigger] all[j]).uuid != s@.uuid,
    {
        assert(all[i as int] == favs@[i as int]@);
        if same(favs[i].uuid.as_str(), s.uuid.as_str()) {
            return true;
        }
    }
    false
}

fn any_url(favs: &Vec<Station>, s: &Station) -> (r: bool)
    ensures
        r == fav_by_url(stations_view(favs@), s@),
{
    let ghost all = stations_view(favs@);
    for i in 0..favs.len()
        invariant
            all == stations_view(favs@),
            forall|j: int| 0 <= j < i ==> (#[trigger] all[j]).url != s@.url,
    {
        assert(all[i as int] == favs@[i as int]@);
        if same(favs[i].url.as_str(), s.url.as_str()) {
            return true;
        }
    }
    false
}

/// Makes a station a favourite, or one no more. Returns whether it is one now.
pub fn toggle_fav(st: &mut RadioState, s: &Station) -> (now: bool)
    ensures
        final(st)@ == (RadioStateV { favs: fav_toggled(old(st)@.favs, s@), ..old(st)@ }),
        now == !(fav_by_uuid(old(st)@.favs, s@) || fav_by_url(old(st)@.favs, s@)),
{
    let by_uuid = any_uuid(&st.favs, s);
    if !by_uuid && !any_url(&st.favs, s) {
        let ghost before = stations_view(st.favs@);
        st.favs.push(s.copy());
        assert(stations_view(st.favs@) == before.push(s@));
        return true;
    }
    let mut rest: Vec<Station> = Vec::new();
    let ghost all = stations_view(st.favs@);
    let ghost p = |f: StationV| if by_uuid { f.uuid != s@.uuid } else { f.url != s@.url };
    proof {
        reveal(Seq::filter);
        assert(stations_view(rest@) == all.take(0).filter(p));
    }
    for i in 0..st.favs.len()
        invariant
            all == stations_view(st.favs@),
            p == (|f: StationV| if by_uuid { f.uuid != s@.uuid } else { f.url != s@.url }),
            stations_view(rest@) == all.take(i as int).filter(p),
    {
        let ghost before = stations_view(rest@);
        assert(all[i as int] == st.favs@[i as int]@);
        let gone = if by_uuid {
            same(st.favs[i].uuid.as_str(), s.uuid.as_str())
        } else {
            same(st.favs[i].url.as_str(), s.url.as_str())
        };
        if !gone {
            rest.push(st.favs[i].copy());
            assert(stations_view(rest@) == before.push(all[i as int]));
        }
        proof {
            lemma_filter_take(all, p, i as int);
        }
    }
    proof {
        assert(all.take(st.favs.len() as int) == all);
        if by_uuid {
            assert(p =~= (|f: StationV| f.uuid != s@.uuid));
        } else {
            assert(p =~= (|f: StationV| f.url != s@.url));
        }
    }
    st.favs = rest;
    false
}

/// Whether a station is a favourite.
pub open spec fn fav(favs: Seq<StationV>, s: StationV) -> bool {
    fav_by_uuid(favs, s) || fav_by_url(favs, s)
}

/// Whether a station is a favourite, by its identifier or its address.
pub fn is_fav(st: &RadioState, s: &Station) -> (r: bool)
    ensures
        r == fav(st@.favs, s@),
{
    any_uuid(&st.favs, s) || any_url(&st.favs, s)
}

/// What the command is for.
pub open spec fn about_lines() -> Seq<Seq<char>> {
    seq![
        "siren radio — community stations"@,
        "(radio-browser.info, keyless)"@,
        ""@,
        "  siren radio countries         list countries (a-z)"@,
        "  siren radio stations Portugal stations for a country"@,
        "  siren radio search lofi       search by name"@,
        "  siren radio play <words>      play top match (output channel)"@,
        "  siren radio fav               list favorites"@,
        "  siren radio fav <words>       toggle favorite"@,
        ""@,
        "TUI: Tab to radio, Enter picks a country, Enter plays."@,
    ]
}

/// What the command is for.
pub fn about_text() -> (r: Vec<String>)
    ensures
        views(r@) == about_lines(),
{
    let mut r: Vec<String> = Vec::new();
    r.push("siren radio — community stations".to_owned());
    r.push("(radio-browser.info, keyless)".to_owned());
    r.push("".to_owned());
    r.push("  siren radio countries         list countries (a-z)".to_owned());
    r.push("  siren radio stations Portugal stations for a country".to_owned());
    r.push("  siren radio search lofi       search by name".to_owned());
    r.push("  siren radio play <words>      play top match (output channel)".to_owned());
    r.push("  siren radio fav               list favorites".to_owned());
    r.push("  siren radio fav <words>       toggle favorite".to_owned());
    r.push("".to_owned());
    r.push("TUI: Tab to radio, Enter picks a country, Enter plays.".to_owned());
    assert(views(r@) == about_lines());
    r
}

// ---- laws ----

/// A station that was no favourite is one after a toggle, and a second toggle leaves the
/// favourites as they were.
pub proof fn law_toggle_fav_twice(favs: Seq<StationV>, s: StationV)
    requires
        !fav(favs, s),
    ensures
        fav(fav_toggled(favs, s), s),
        fav_toggled(fav_toggled(favs, s), s) == favs,
{
    let added = favs.push(s);
    assert(added[favs.len() as int] == s);
    assert(added.drop_last() == favs);
    let p = |f: StationV| f.uuid != s.uuid;
    let q = |f: StationV| f.url != s.url;
    if s.uuid.len() > 0 {
        assert forall|i: int| 0 <= i < favs.len() implies p(#[trigger] favs[i]) by {}
        lemma_filter_all(favs, p);
        crate::text::lemma_filter_push(favs, p, s);
    } else {
        assert forall|i: int| 0 <= i < favs.len() implies q(#[trigger] favs[i]) by {}
        lemma_filter_all(favs, q);
        crate::text::lemma_filter_push(favs, q, s);
    }
}

proof fn lemma_filter_all(v: Seq<StationV>, p: spec_fn(StationV) -> bool)
    requires
        forall|i: int| 0 <= i < v.len() ==> p(#[trigger] v[i]),
    ensures
        v.filter(p) == v,
    decreases v.len(),
{
    reveal(Seq::filter);
    if v.len() > 0 {
        let t = v.drop_last();
        assert forall|i: int| 0 <= i < t.len() implies p(#[trigger] t[i]) by {
            assert(p(v[i]));
        }
        lemma_filter_all(t, p);
        assert(p(v[v.len() - 1]));
        assert(t.push(v.last()) == v);
    }
}

/// Whether a favourite has the station's address, or its identifier where it has any.
pub open spec fn shares(f: StationV, s: StationV) -> bool {
    f.url == s.url || (s.uuid.len() > 0 && f.uuid == s.uuid)
}

/// A favourite is one no more after a toggle, as long as only one favourite shares its address
/// or identifier, or none has its address under another identifier.
pub proof fn law_toggle_fav_drops(favs: Seq<StationV>, s: StationV)
    requires
        fav(favs, s),
        ({
            ||| forall|i: int| 0 <= i < favs.len() && (#[trigger] favs[i]).url == s.url ==> favs[i].uuid == s.uuid
            ||| forall|i: int, j: int|
                0 <= i < j < favs.len() ==> !(shares(#[trigger] favs[i], s) && shares(#[trigger] favs[j], s))
        }),
    ensures
        !fav(fav_toggled(favs, s), s),
{
    let after = fav_toggled(favs, s);
    if fav_by_uuid(favs, s) {
        crate::text::lemma_filtered(favs, |f: StationV| f.uuid != s.uuid);
    } else {
        crate::text::lemma_filtered(favs, |f: StationV| f.url != s.url);
    }
    assert forall|i: int| 0 <= i < after.len() implies (#[trigger] after[i]).url != s.url && (s.uuid.len() > 0
        ==> after[i].uuid != s.uuid) by {
        assert(after.contains(after[i]));
        assert(favs.contains(after[i]));
        let k = favs.index_of(after[i]);
        assert(favs[k] == after[i]);
        let m = if fav_by_uuid(favs, s) {
            choose|m: int| 0 <= m < favs.len() && (#[trigger] favs[m]).uuid == s.uuid
        } else {
            choose|m: int| 0 <= m < favs.len() && (#[trigger] favs[m]).url == s.url
        };
        assert(shares(favs[m], s));
    }
}

/// The stations of an answer are in the order of their names, case aside, and every one of
/// them streams by `http` or `https`.
pub proof fn law_stations_in_order(text: Seq<char>)
    ensures
        in_order(parsed_stations(text), station_key()),
        forall|i: int|
            0 <= i < parsed_stations(text).len() ==> streams_by_http(#[trigger] parsed_stations(text)[i]),
{
    let found = stations_in(parsed_or_null(text).items());
    let shown = parsed_stations(text);
    law_sorted(found, station_key());
    lemma_stations_stream(parsed_or_null(text).items());
    assert forall|i: int| 0 <= i < shown.len() implies streams_by_http(#[trigger] shown[i]) by {
        broadcast use vstd::seq_lib::group_to_multiset_ensures;
        assert(shown.contains(shown[i]));
        assert(shown.to_multiset().count(shown[i]) > 0);
        assert(found.contains(shown[i]));
        let k = found.index_of(shown[i]);
        assert(streams_by_http(found[k]));
    }
}

/// Whether a station's address begins with `http://` or `https://`.
pub open spec fn streams_by_http(s: StationV) -> bool {
    starts(s.url, "http://"@) || starts(s.url, "https://"@)
}

proof fn lemma_stations_stream(a: Seq<JsonV>)
    ensures
        forall|i: int| 0 <= i < stations_in(a).len() ==> streams_by_http(#[trigger] stations_in(a)[i]),
    decreases a.len(),
{
    if a.len() > 0 {
        lemma_stations_stream(a.drop_last());
        let before = stations_in(a.drop_last());
        let now = stations_in(a);
        assert forall|i: int| 0 <= i < now.len() implies streams_by_http(#[trigger] now[i]) by {
            if i < before.len() {
                assert(now[i] == before[i]);
            }
        }
    }
}

proof fn lemma_countries_plain(cs: Seq<CountryV>, ts: u64)
    ensures
        plain(countries_json(cs, ts), 100),
{
    reveal_strlit("countries");
    reveal_strlit("ts");
    reveal_strlit("count");
    reveal_strlit("name");
    reveal_with_fuel(crate::order::text_le, 2);
    let a = cs.map_values(|c: CountryV| country_json(c));
    assert forall|i: int| 0 <= i < a.len() implies plain(#[trigger] a[i], 98) by {
        let c = cs[i];
        assert(a[i] == country_json(c));
        let o = country_json(c)->Obj_0;
        assert(crate::json::names_ascend(o));
        assert(plain(int_v(c.count as int), 97));
        assert(plain(o[0].1, 97) && plain(o[1].1, 97));
    }
    assert(plain(JsonV::Arr(a), 99));
    assert(plain(int_v(ts as int), 99));
    let top = countries_json(cs, ts)->Obj_0;
    assert(crate::json::names_ascend(top));
    assert(plain(top[0].1, 99) && plain(top[1].1, 99));
}

/// No two stations have the same address, nor the same identifier where they have any.
pub open spec fn listed_once(list: Seq<StationV>) -> bool {
    forall|i: int, j: int|
        0 <= i < j < list.len() ==> (#[trigger] list[i]).url != (#[trigger] list[j]).url && (list[i].uuid.len() > 0
            ==> list[i].uuid != list[j].uuid)
}

/// However many searches feed it, a list holds no station twice.
pub proof fn law_merged_listed_once(list: Seq<StationV>, more: Seq<StationV>)
    requires
        listed_once(list),
    ensures
        listed_once(merged(list, more)),
    decreases more.len(),
{
    if more.len() > 0 {
        law_merged_listed_once(list, more.drop_last());
        let front = merged(list, more.drop_last());
        let all = merged(list, more);
        assert forall|i: int, j: int| 0 <= i < j < all.len() implies (#[trigger] all[i]).url != (#[trigger] all[j]).url
            && (all[i].uuid.len() > 0 ==> all[i].uuid != all[j].uuid) by {
            assert(all[i] == front[i]);
            if j < front.len() {
                assert(all[j] == front[j]);
            }
        }
    }
}

proof fn lemma_put_listed_once(s: Seq<StationV>, x: StationV)
    requires
        listed_once(s),
        !is_listed(s, x),
    ensures
        listed_once(put_sorted(s, x, station_key())),
        forall|i: int|
            0 <= i < put_sorted(s, x, station_key()).len() ==> #[trigger] put_sorted(s, x, station_key())[i] == x
                || s.contains(put_sorted(s, x, station_key())[i]),
    decreases s.len(),
{
    let w = put_sorted(s, x, station_key());
    if s.len() == 0 || key_le(station_key()(s.last()), station_key()(x)) {
        assert(w == s.push(x));
        assert forall|i: int| 0 <= i < w.len() implies #[trigger] w[i] == x || s.contains(w[i]) by {
            if i < s.len() {
                assert(w[i] == s[i]);
            }
        }
        assert forall|i: int, j: int| 0 <= i < j < w.len() implies (#[trigger] w[i]).url != (#[trigger] w[j]).url && (
        w[i].uuid.len() > 0 ==> w[i].uuid != w[j].uuid) by {
            assert(w[i] == s[i]);
            if j < s.len() {
                assert(w[j] == s[j]);
            }
        }
    } else {
        let t = s.drop_last();
        let inner = put_sorted(t, x, station_key());
        let l = s.last();
        assert(!is_listed(t, x)) by {
            assert forall|i: int| 0 <= i < t.len() implies !(((#[trigger] t[i]).uuid.len() > 0 && t[i].uuid == x.uuid)
                || t[i].url == x.url) by {
                assert(t[i] == s[i]);
            }
        }
        lemma_put_listed_once(t, x);
        assert(w == inner.push(l));
        assert forall|i: int| 0 <= i < inner.len() implies (#[trigger] inner[i]).url != l.url && (inner[i].uuid.len()
            > 0 ==> inner[i].uuid != l.uuid) && (inner[i] == x || s.contains(inner[i])) by {
            if inner[i] == x {
                assert(s[s.len() - 1] == l);
            } else {
                let k = choose|k: int| 0 <= k < t.len() && t[k] == inner[i];
                assert(s[k] == inner[i] && s[s.len() - 1] == l);
            }
        }
        assert forall|i: int, j: int| 0 <= i < j < w.len() implies (#[trigger] w[i]).url != (#[trigger] w[j]).url && (
        w[i].uuid.len() > 0 ==> w[i].uuid != w[j].uuid) by {
            assert(w[i] == inner[i]);
            if j < inner.len() {
                assert(w[j] == inner[j]);
            }
        }
        assert forall|i: int| 0 <= i < w.len() implies #[trigger] w[i] == x || s.contains(w[i]) by {
            if i < inner.len() {
                assert(w[i] == inner[i]);
            } else {
                assert(s[s.len() - 1] == l);
            }
        }
    }
}

proof fn lemma_sorted_listed_once(s: Seq<StationV>)
    requires
        listed_once(s),
    ensures
        listed_once(sorted_by(s, station_key())),
        forall|i: int|
            0 <= i < sorted_by(s, station_key()).len() ==> s.contains(#[trigger] sorted_by(s, station_key())[i]),
    decreases s.len(),
{
    if s.len() > 0 {
        let t = s.drop_last();
        let x = s.last();
        let front = sorted_by(t, station_key());
        lemma_sorted_listed_once(t);
        assert(!is_listed(front, x)) by {
            assert forall|i: int| 0 <= i < front.len() implies !(((#[trigger] front[i]).uuid.len() > 0 && front[i].uuid
                == x.uuid) || front[i].url == x.url) by {
                let k = choose|k: int| 0 <= k < t.len() && t[k] == front[i];
                assert(s[k] == front[i] && s[s.len() - 1] == x);
            }
        }
        lemma_put_listed_once(front, x);
        let w = sorted_by(s, station_key());
        assert forall|i: int| 0 <= i < w.len() implies s.contains(#[trigger] w[i]) by {
            if w[i] == x {
                assert(s[s.len() - 1] == x);
            } else {
                let k = choose|k: int| 0 <= k < front.len() && front[k] == w[i];
                assert(t.contains(front[k]));
                let m = choose|m: int| 0 <= m < t.len() && t[m] == front[k];
                assert(s[m] == w[i]);
            }
        }
    }
}

proof fn lemma_answers_listed_once(texts: Seq<Seq<char>>)
    ensures
        listed_once(merged_answers(texts)),
    decreases texts.len(),
{
    if texts.len() > 0 {
        lemma_answers_listed_once(texts.drop_last());
        law_merged_listed_once(merged_answers(texts.drop_last()), parsed_stations(texts.last()));
    }
}

/// A search ends: after one answer for the query, and one for each of its words at most.
pub proof fn law_search_ends(query: Seq<char>, limit: int, offset: int, texts: Seq<Seq<char>>)
    requires
        texts.len() > words(query).len(),
    ensures
        search_step(query, limit, offset, texts) is Found,
{
}

/// What a search finds is in the order of the names, case aside. What it finds word by word
/// holds no station twice and fits on a page.
pub proof fn law_search_result(query: Seq<char>, limit: int, offset: int, texts: Seq<Seq<char>>)
    requires
        limit >= 0,
        search_step(query, limit, offset, texts) is Found,
    ensures
        in_order(search_step(query, limit, offset, texts)->Found_0, station_key()),
        texts.len() > 1 && fallback_words(query, parsed_stations(texts[0]).len() as int, offset).len() > 0
            ==> listed_once(search_step(query, limit, offset, texts)->Found_0) && search_step(
            query,
            limit,
            offset,
            texts,
        )->Found_0.len() <= limit,
{
    law_stations_in_order(texts[0]);
    let all = merged_answers(texts.skip(1));
    lemma_answers_listed_once(texts.skip(1));
    law_sorted(all, station_key());
    lemma_sorted_listed_once(all);
    let s = sorted_by(all, station_key());
    let r = first_stations(s, limit);
    assert forall|i: int, j: int| 0 <= i < j < r.len() implies key_le(
        station_key()(#[trigger] r[i]),
        station_key()(#[trigger] r[j]),
    ) by {
        assert(r[i] == s[i] && r[j] == s[j]);
    }
    assert forall|i: int, j: int| 0 <= i < j < r.len() implies (#[trigger] r[i]).url != (#[trigger] r[j]).url && (
    r[i].uuid.len() > 0 ==> r[i].uuid != r[j].uuid) by {
        assert(r[i] == s[i] && r[j] == s[j]);
    }
}

/// A station that is merged in twice is listed once.
pub proof fn law_merge_lists_once(list: Seq<StationV>, s: StationV)
    ensures
        merged(merged(list, seq![s]), seq![s]) == merged(list, seq![s]),
{
    reveal_with_fuel(merged, 3);
    let once = merged(list, seq![s]);
    assert(seq![s].drop_last() == Seq::<StationV>::empty());
    if !is_listed(list, s) {
        assert(once[list.len() as int] == s);
    }
}

proof fn lemma_countries_named(a: Seq<JsonV>, key: Seq<char>)
    ensures
        forall|c: CountryV| #[trigger]
            countries_in(a, key).contains(c) ==> trim(c.name) == c.name && c.name.len() > 0,
    decreases a.len(),
{
    if a.len() > 0 {
        let front = countries_in(a.drop_last(), key);
        lemma_countries_named(a.drop_last(), key);
        match country_of(a.last(), key) {
            Some(l) => {
                law_trim_twice(a.last().str_at("name"@)->0);
                assert forall|c: CountryV| #[trigger] countries_in(a, key).contains(c) implies trim(c.name) == c.name
                    && c.name.len() > 0 by {
                    let i = choose|i: int| 0 <= i < front.push(l).len() && front.push(l)[i] == c;
                    if i < front.len() {
                        assert(front.contains(front[i]));
                    }
                }
            },
            None => {},
        }
    }
}

/// The countries that were fetched and stored are found again as they were, as long as they
/// are fresh.
pub proof fn law_fetched_countries_read_back(
    answer: Seq<char>,
    cs: Seq<CountryV>,
    ts: u64,
    now: u64,
    text: Seq<char>,
)
    requires
        fetched_countries(answer) == Ok::<Seq<CountryV>, Seq<char>>(cs),
        cs.len() > 0,
        reads_as(text, countries_json(cs, ts)),
        is_fresh(ts, now),
    ensures
        stored_countries(text, Some(now)) == Some(cs),
{
    let a = json_parsed(answer)->Ok_0.items();
    let s = countries_in(a, "stationcount"@);
    law_sorted(s, country_key());
    lemma_countries_named(a, "stationcount"@);
    assert forall|i: int| 0 <= i < cs.len() implies trim((#[trigger] cs[i]).name) == cs[i].name && cs[i].name.len() > 0 by {
        broadcast use vstd::seq_lib::group_to_multiset_ensures;

        assert(cs.contains(cs[i]));
        assert(cs.to_multiset().count(cs[i]) > 0);
        assert(s.contains(cs[i]));
    }
    law_countries_read_back(cs, ts, now, text);
}

/// What was stored of the countries is found again: their names and counts, by name.
pub proof fn law_countries_read_back(cs: Seq<CountryV>, ts: u64, now: u64, text: Seq<char>)
    requires
        reads_as(text, countries_json(cs, ts)),
        cs.len() > 0,
        is_fresh(ts, now),
        in_order(cs, country_key()),
        forall|i: int| 0 <= i < cs.len() ==> trim((#[trigger] cs[i]).name) == cs[i].name && cs[i].name.len() > 0,
    ensures
        stored_countries(text, Some(now)) == Some(cs),
{
    reveal_strlit("countries");
    reveal_strlit("ts");
    reveal_strlit("count");
    reveal_strlit("name");
    reveal_with_fuel(crate::json::member, 3);
    assert("countries"@.len() == 9 && "ts"@.len() == 2);
    assert("count"@.len() == 5 && "name"@.len() == 4);
    let v = countries_json(cs, ts);
    let a = cs.map_values(|c: CountryV| country_json(c));
    assert(v.get("countries"@) == Some(JsonV::Arr(a)));
    assert(v.u64_at("ts"@) == Some(ts));
    lemma_countries_in(cs);
    crate::order::law_sorted_keeps_order(cs, country_key());
}

proof fn lemma_countries_in(cs: Seq<CountryV>)
    requires
        forall|i: int| 0 <= i < cs.len() ==> trim((#[trigger] cs[i]).name) == cs[i].name && cs[i].name.len() > 0,
    ensures
        countries_in(cs.map_values(|c: CountryV| country_json(c)), "count"@) == cs,
    decreases cs.len(),
{
    let a = cs.map_values(|c: CountryV| country_json(c));
    if cs.len() > 0 {
        let t = cs.drop_last();
        assert forall|i: int| 0 <= i < t.len() implies trim((#[trigger] t[i]).name) == t[i].name && t[i].name.len()
            > 0 by {
            assert(trim(cs[i].name) == cs[i].name);
        }
        lemma_countries_in(t);
        assert(a.drop_last() == t.map_values(|c: CountryV| country_json(c)));
        let c = cs.last();
        assert(c == cs[cs.len() - 1]);
        reveal_strlit("count");
        reveal_strlit("name");
        reveal_with_fuel(crate::json::member, 3);
        assert("count"@.len() == 5 && "name"@.len() == 4);
        assert(a.last() == country_json(c));
        assert(country_of(a.last(), "count"@) == Some(c));
        assert(t.push(c) == cs);
    } else {
        assert(countries_in(a, "count"@) == cs);
    }
}

/// A station is listed with what the server says of it, under the same names: its identifier, its
/// name, trimmed, its codec, bit rate, tags and country; it streams from the address that was
/// resolved, else from the one that was given. One that failed its last check, or that streams
/// otherwise than by `http` or `https`, is left out, and no other.
pub proof fn law_station_is_as_listed(a: Seq<JsonV>, v: JsonV)
    ensures
        stations_in(a.push(v)) == stations_in(a) + stations_in(seq![v]),
        ({
            let url = if v.str_or("url_resolved"@, ""@).len() > 0 {
                v.str_or("url_resolved"@, ""@)
            } else {
                v.str_or("url"@, ""@)
            };
            let good = (starts(url, "http://"@) || starts(url, "https://"@)) && v.i64_at("lastcheckok"@) != Some(0i64);
            &&& !good ==> stations_in(seq![v]).len() == 0
            &&& good ==> {
                let s = stations_in(seq![v])[0];
                &&& stations_in(seq![v]).len() == 1
                &&& s.url == url
                &&& v.str_at("name"@) matches Some(n) ==> s.name == trim(n)
                &&& v.str_at("stationuuid"@) is Some ==> v.str_at("stationuuid"@) == Some(s.uuid)
                &&& v.str_at("codec"@) is Some ==> v.str_at("codec"@) == Some(s.codec)
                &&& v.u64_at("bitrate"@) is Some ==> v.u64_at("bitrate"@) == Some(s.bitrate)
                &&& v.str_at("tags"@) is Some ==> v.str_at("tags"@) == Some(s.tags)
                &&& v.str_at("country"@) is Some ==> v.str_at("country"@) == Some(s.country)
            }
        }),
{
    reveal_strlit("");
    assert(a.push(v).drop_last() == a);
    assert(seq![v].drop_last() == Seq::<JsonV>::empty());
    assert(seq![v].last() == v);
    reveal_with_fuel(stations_in, 2);
    assert(stations_in(a.push(v)) =~= stations_in(a) + stations_in(seq![v]));
}

/// An answer is put in order and nothing of it is lost.
pub proof fn law_answer_is_complete(text: Seq<char>, s: StationV)
    ensures
        parsed_stations(text).contains(s) <==> stations_in(parsed_or_null(text).items()).contains(s),
        parsed_stations(text).len() == stations_in(parsed_or_null(text).items()).len(),
{
    broadcast use vstd::seq_lib::group_to_multiset_ensures;

    let a = stations_in(parsed_or_null(text).items());
    law_sorted(a, station_key());
    assert(parsed_stations(text).contains(s) <==> parsed_stations(text).to_multiset().count(s) > 0);
    assert(a.contains(s) <==> a.to_multiset().count(s) > 0);
}

/// Stations are merged one by one: one that is not listed yet comes behind the others, one that is
/// changes nothing. It is listed where one has its address, or its identifier.
pub proof fn law_merge_adds_the_new(list: Seq<StationV>, more: Seq<StationV>, s: StationV, i: int)
    ensures
        merged(list, Seq::empty()) == list,
        !is_listed(merged(list, more), s) ==> merged(list, more.push(s)) == merged(list, more).push(s),
        is_listed(merged(list, more), s) ==> merged(list, more.push(s)) == merged(list, more),
        0 <= i < list.len() && list[i].url == s.url ==> is_listed(list, s),
        0 <= i < list.len() && s.uuid.len() > 0 && list[i].uuid == s.uuid ==> is_listed(list, s),
        (forall|j: int|
            0 <= j < list.len() ==> (#[trigger] list[j]).url != s.url && (list[j].uuid != s.uuid || s.uuid.len() == 0))
            ==> !is_listed(list, s),
{
    assert(more.push(s).drop_last() == more);
}

/// A search asks for the query first; what that finds is the result. Where it finds nothing, and
/// the query has several words, each word is asked for in turn.
pub proof fn law_search_goes_word_by_word(query: Seq<char>, limit: int, offset: int, texts: Seq<Seq<char>>)
    ensures
        search_step(query, limit, offset, Seq::empty()) == SearchStepV::Fetch(
            "https://de1.api.radio-browser.info/json"@ + "/stations/search?name="@ + path_text(query) + "&order=name&limit="@
                + dec(limit) + "&offset="@ + dec(offset),
        ),
        texts.len() == 1 && parsed_stations(texts[0]).len() > 0 ==> search_step(query, limit, offset, texts)
            == SearchStepV::Found(parsed_stations(texts[0])),
        texts.len() == 1 && offset > 0 ==> search_step(query, limit, offset, texts) == SearchStepV::Found(
            parsed_stations(texts[0]),
        ),
        texts.len() > 0 && parsed_stations(texts[0]).len() == 0 && offset == 0 && trim(query).contains(' ') && texts.len()
            <= words(query).len() ==> search_step(query, limit, offset, texts) == SearchStepV::Fetch(
            "https://de1.api.radio-browser.info/json"@ + "/stations/search?name="@ + path_text(words(query)[texts.len() - 1])
                + "&order=name&limit="@ + dec(limit) + "&offset="@ + dec(0),
        ),
        texts.len() > 0 && !trim(query).contains(' ') ==> search_step(query, limit, offset, texts) == SearchStepV::Found(
            parsed_stations(texts[0]),
        ),
{
}

/// Where the first server fails, the same is asked of the second.
pub proof fn law_second_server(rest: Seq<char>)
    ensures
        replaced_first(first_base() + rest, first_base(), second_base()) == Some(
            "https://de2.api.radio-browser.info/json"@ + rest,
        ),
{
    let url = first_base() + rest;
    assert(url.subrange(0, first_base().len() as int) =~= first_base());
    assert(crate::text::at(url, first_base(), 0));
    assert(url.take(0) + second_base() + url.skip(first_base().len() as int) =~= second_base() + rest);
}

/// A country is listed by its name, trimmed, and by how many stations it has; one without a name
/// is left out.
pub proof fn law_country_is_as_listed(a: Seq<JsonV>, v: JsonV, key: Seq<char>)
    ensures
        countries_in(a.push(v), key) == countries_in(a, key) + countries_in(seq![v], key),
        v.str_at("name"@) matches Some(n) ==> {
            &&& trim(n).len() > 0 ==> countries_in(seq![v], key).len() == 1 && countries_in(seq![v], key)[0].name == trim(n) && (
            v.u64_at(key) is Some ==> v.u64_at(key) == Some(countries_in(seq![v], key)[0].count))
            &&& trim(n).len() == 0 ==> countries_in(seq![v], key).len() == 0
        },
        v.str_at("name"@) is None ==> countries_in(seq![v], key).len() == 0,
{
    assert(a.push(v).drop_last() == a);
    assert(seq![v].drop_last() == Seq::<JsonV>::empty());
    assert(seq![v].last() == v);
    reveal_with_fuel(countries_in, 2);
    assert(countries_in(a.push(v), key) =~= countries_in(a, key) + countries_in(seq![v], key));
}

/// The stored countries count for a week, and no longer.
pub proof fn law_countries_age(ts: u64, now: u64)
    ensures
        now >= ts && now - ts >= 7 * 24 * 60 * 60 ==> !is_fresh(ts, now),
        now >= ts && now - ts < 7 * 24 * 60 * 60 ==> is_fresh(ts, now),
        now < ts ==> is_fresh(ts, now),
{
}

/// A station is queued by the address it streams from and shown by its name, with the country.
pub proof fn law_station_is_queued(s: StationV)
    ensures
        station_item(s).path == s.url && station_item(s).duration == "0.0"@,
        station_item(s).display == s.name,
        station_item(s).title == s.name,
        s.country.len() > 0 ==> station_item(s).artist == "Radio · "@ + s.country,
        s.country.len() == 0 ==> station_item(s).artist == "Radio"@,
{
}

/// A toggle changes nothing of the other favourites: those that share neither the address nor the
/// identifier of the station stay, in their order, and a new favourite comes behind them.
pub proof fn law_toggle_keeps_others(favs: Seq<StationV>, s: StationV, f: StationV)
    requires
        !shares(f, s),
    ensures
        favs.contains(f) <==> fav_toggled(favs, s).contains(f),
        !fav(favs, s) ==> fav_toggled(favs, s) == favs.push(s),
        fav(favs, s) <==> exists|i: int| 0 <= i < favs.len() && shares(#[trigger] favs[i], s),
{
    crate::text::lemma_filtered(favs, |x: StationV| x.uuid != s.uuid);
    crate::text::lemma_filtered(favs, |x: StationV| x.url != s.url);
    let p = favs.push(s);
    if favs.contains(f) {
        assert(p[favs.index_of(f)] == f);
    }
    if p.contains(f) {
        let k = p.index_of(f);
        assert(k < favs.len());
        assert(favs[k] == f);
    }
    if fav_by_uuid(favs, s) {
        let i = choose|i: int| 0 <= i < favs.len() && (#[trigger] favs[i]).uuid == s.uuid;
        assert(shares(favs[i], s));
    }
    if fav_by_url(favs, s) {
        let i = choose|i: int| 0 <= i < favs.len() && (#[trigger] favs[i]).url == s.url;
        assert(shares(favs[i], s));
    }
    if s.uuid.len() == 0 {
        assert(!fav_by_uuid(favs, s));
    }
}

} // verus!
