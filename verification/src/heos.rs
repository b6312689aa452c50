//! HEOS speakers: what is asked of them, and what their replies mean.
//!
//! A request is a `heos://` line, a reply a run of JSON objects. State and volume come in
//! the query string of a reply's message. The connections belong to the caller.

use vstd::prelude::*;
use crate::json::{
    alike, decimal, int_v, json_arr, json_compact, json_i64, json_obj, json_parsed, json_real, json_str, jsons, member_of, members,
    names_ascend, numeric, orderly, parse, parse_or_null, parsed_or_null, reads_alike, real_v, render, value_stored, Json, JsonV,
};
use crate::nums::{dec, dec_i64, dec_u64, int_in, is_digit, lemma_dec_nat, parse_i32};
use crate::text::{
    cat2, cat3, cat4, cat5, chars_of, contains, cut_first, cut_last, has, holds, is_text, lemma_char_pos, list_has, lossy,
    lossy_text, lower, lowered, opt_copy, opt_str, opt_view, pair_view, rsplit_once, same, slice_of, split,
    split_at_char, split_once, starts, starts_with, trim, trimmed, views,
};
use crate::urls::{path_text, percent_encode_path};

verus! {

// ---- replies ----

/// Where the object that is being read ends: behind the brace that brings `depth` to zero.
/// Braces inside of strings do not count, nor quotes behind a backslash there.
pub open spec fn obj_end(s: Seq<char>, i: int, depth: int, in_str: bool, esc: bool) -> Option<int>
    decreases s.len() - i,
{
    if i >= s.len() {
        None
    } else {
        let c = s[i];
        if in_str {
            if esc {
                obj_end(s, i + 1, depth, true, false)
            } else if c == '\\' {
                obj_end(s, i + 1, depth, true, true)
            } else {
                obj_end(s, i + 1, depth, c != '"', false)
            }
        } else if c == '"' {
            obj_end(s, i + 1, depth, true, false)
        } else if c == '{' {
            obj_end(s, i + 1, depth + 1, false, false)
        } else if c == '}' {
            if depth == 1 {
                Some(i + 1)
            } else {
                obj_end(s, i + 1, depth - 1, false, false)
            }
        } else {
            obj_end(s, i + 1, depth, false, false)
        }
    }
}

/// An object ends behind its start and within the text.
pub proof fn lemma_obj_end(s: Seq<char>, i: int, depth: int, in_str: bool, esc: bool)
    ensures
        obj_end(s, i, depth, in_str, esc) is Some ==> i < obj_end(s, i, depth, in_str, esc)->0 <= s.len(),
    decreases s.len() - i,
{
    if i < s.len() {
        let c = s[i];
        if in_str {
            if esc {
                lemma_obj_end(s, i + 1, depth, true, false);
            } else if c == '\\' {
                lemma_obj_end(s, i + 1, depth, true, true);
            } else {
                lemma_obj_end(s, i + 1, depth, c != '"', false);
            }
        } else if c == '"' {
            lemma_obj_end(s, i + 1, depth, true, false);
        } else if c == '{' {
            lemma_obj_end(s, i + 1, depth + 1, false, false);
        } else if c == '}' {
            if depth != 1 {
                lemma_obj_end(s, i + 1, depth - 1, false, false);
            }
        } else {
            lemma_obj_end(s, i + 1, depth, false, false);
        }
    }
}

/// The end of the object that starts at `from`; the end of the text where it is cut short.
pub open spec fn piece_end(s: Seq<char>, from: int) -> int {
    match obj_end(s, from, 0, false, false) {
        Some(e) => e,
        None => s.len() as int,
    }
}

/// The JSON objects that a text holds from `from` on, one behind the other. What stands
/// between them is skipped, and so is a piece that is no JSON.
pub open spec fn objects(s: Seq<char>, from: int) -> Seq<JsonV>
    decreases s.len() - from,
{
    if from < 0 || from >= s.len() {
        Seq::empty()
    } else if s[from] != '{' {
        objects(s, from + 1)
    } else {
        proof {
            lemma_obj_end(s, from, 0, false, false);
        }
        let end = piece_end(s, from);
        match json_parsed(s.subrange(from, end)) {
            Ok(v) => seq![v] + objects(s, end),
            Err(_) => objects(s, end),
        }
    }
}

fn find_piece_end(v: &Vec<char>, start: usize) -> (end: usize)
    requires
        start < v.len(),
        v@[start as int] == '{',
    ensures
        end == piece_end(v@, start as int),
        start < end <= v.len(),
{
    let mut i: usize = start;
    let mut depth: usize = 0;
    let mut in_str = false;
    let mut esc = false;
    while i < v.len()
        invariant
            start <= i <= v.len(),
            start < v.len(),
            v@[start as int] == '{',
            i > start ==> depth >= 1,
            depth <= i - start,
            i == start ==> depth == 0 && !in_str && !esc,
            !in_str ==> !esc,
            obj_end(v@, start as int, 0, false, false) == obj_end(v@, i as int, depth as int, in_str, esc),
        decreases v.len() - i,
    {
        let c = v[i];
        if in_str {
            if esc {
                esc = false;
            } else if c == '\\' {
                esc = true;
            } else if c == '"' {
                in_str = false;
            }
        } else if c == '"' {
            in_str = true;
        } else if c == '{' {
            depth = depth + 1;
        } else if c == '}' {
            if depth == 1 {
                return i + 1;
            }
            depth = depth - 1;
        }
        i = i + 1;
    }
    i
}

/// The JSON objects that a text holds, one behind the other.
pub fn split_objects(text: &str) -> (r: Vec<Json>)
    ensures
        jsons(r@) == objects(text@, 0),
{
    let v = chars_of(text);
    let mut out: Vec<Json> = Vec::new();
    let mut i: usize = 0;
    assert(jsons(out@) + objects(v@, 0) == objects(v@, 0));
    while i < v.len()
        invariant
            v@ == text@,
            i <= v.len(),
            jsons(out@) + objects(v@, i as int) == objects(v@, 0),
        decreases v.len() - i,
    {
        if v[i] != '{' {
            i = i + 1;
        } else {
            let end: usize = find_piece_end(&v, i);
            let ghost before = jsons(out@);
            match parse(slice_of(&v, i, end).as_str()) {
                Ok(j) => {
                    out.push(j);
                    assert(jsons(out@) == before.push(j@));
                    assert(jsons(out@) + objects(v@, end as int) == before + objects(v@, i as int));
                },
                Err(_) => {},
            }
            i = end;
        }
    }
    assert(objects(v@, i as int) == Seq::<JsonV>::empty());
    assert(jsons(out@) == objects(v@, 0));
    out
}

/// The message of a reply object.
pub open spec fn message(o: JsonV) -> Seq<char> {
    match o.get("heos"@) {
        Some(h) => h.str_or("message"@, ""@),
        None => ""@,
    }
}

pub(crate) fn message_of(o: &Json) -> (r: String)
    ensures
        r@ == message(o@),
{
    match o.get("heos") {
        Some(h) => h.str_or("message", ""),
        None => "".to_owned(),
    }
}

/// Whether an object is a reply of its own, not the word that one is being worked on.
pub open spec fn is_final(o: JsonV) -> bool {
    !(has(message(o), "command under process"@))
}

/// How many of the objects are replies of their own.
pub open spec fn finals(objs: Seq<JsonV>) -> nat
    decreases objs.len(),
{
    if objs.len() == 0 {
        0
    } else {
        finals(objs.drop_last()) + if is_final(objs.last()) {
            1nat
        } else {
            0
        }
    }
}

fn count_finals(objs: &Vec<Json>) -> (n: usize)
    ensures
        n == finals(jsons(objs@)),
{
    let mut n: usize = 0;
    assert(jsons(objs@).take(0) == Seq::<JsonV>::empty());
    for i in 0..objs.len()
        invariant
            n <= i,
            n == finals(jsons(objs@).take(i as int)),
    {
        proof {
            assert(jsons(objs@).take(i + 1).drop_last() == jsons(objs@).take(i as int));
            assert(jsons(objs@).take(i + 1).last() == objs@[i as int]@);
        }
        if !contains(message_of(&objs[i]).as_str(), "command under process") {
            n = n + 1;
        }
    }
    assert(jsons(objs@).take(objs.len() as int) == jsons(objs@));
    n
}

/// What came of one read from a speaker.
pub enum Heard {
    /// The connection was closed.
    Closed,
    /// Bytes came.
    Data(Vec<u8>),
    /// Nothing came for a while.
    Quiet,
    /// The read failed.
    Failed,
}

/// An exchange with a speaker: how many replies are expected, how many quiet whiles are
/// borne, and what has come so far.
pub struct Exchange {
    pub expected: usize,
    pub rounds: u32,
    pub data: Vec<u8>,
    pub quiet: u32,
}

impl Exchange {
    /// An exchange that begins.
    pub fn begin(expected: usize, rounds: u32) -> (x: Exchange)
        ensures
            x.expected == expected,
            x.rounds == rounds,
            x.data@ == Seq::<u8>::empty(),
            x.quiet == 0,
    {
        Exchange { expected, rounds, data: Vec::new(), quiet: 0 }
    }

    /// Whether all the expected replies are there.
    pub open spec fn complete(self) -> bool {
        finals(objects(lossy(self.data@), 0)) >= self.expected
    }

    /// Takes what was heard; says whether to go on reading. A quiet while ends the exchange
    /// once all the expected replies are there, or once there were too many of them.
    pub fn heard(&mut self, h: Heard) -> (go_on: bool)
        ensures
            final(self).expected == old(self).expected,
            final(self).rounds == old(self).rounds,
            match h {
                Heard::Closed => !go_on && final(self).data@ == old(self).data@ && final(self).quiet == old(
                    self,
                ).quiet,
                Heard::Data(d) => go_on && final(self).data@ == old(self).data@ + d@ && final(self).quiet == 0,
                Heard::Quiet => {
                    &&& final(self).data@ == old(self).data@
                    &&& final(self).quiet == if old(self).complete() || old(self).quiet == u32::MAX {
                        old(self).quiet as int
                    } else {
                        old(self).quiet + 1
                    }
                    &&& go_on == (!old(self).complete() && old(self).quiet + 1 < old(self).rounds)
                },
                Heard::Failed => !go_on && final(self).data@ == old(self).data@ && final(self).quiet == old(
                    self,
                ).quiet,
            },
    {
        match h {
            Heard::Closed => false,
            Heard::Data(d) => {
                let mut d = d;
                self.data.append(&mut d);
                self.quiet = 0;
                true
            },
            Heard::Quiet => {
                let objs = split_objects(lossy_text(&self.data).as_str());
                if count_finals(&objs) >= self.expected {
                    return false;
                }
                if self.quiet == u32::MAX {
                    return false;
                }
                self.quiet = self.quiet + 1;
                self.quiet < self.rounds
            },
            Heard::Failed => false,
        }
    }

    /// The objects that came; `None` where nothing did.
    pub fn replies(&self) -> (r: Option<Vec<Json>>)
        ensures
            match r {
                Some(v) => self.data@.len() > 0 && jsons(v@) == objects(lossy(self.data@), 0),
                None => self.data@.len() == 0,
            },
    {
        if self.data.len() == 0 {
            return None;
        }
        Some(split_objects(lossy_text(&self.data).as_str()))
    }
}

/// Whether an object reports success.
pub open spec fn succeeded(o: JsonV) -> bool {
    match o.get("heos"@) {
        Some(h) => h.str_at("result"@) == Some("success"@),
        None => false,
    }
}

/// Whether any of the objects reports success.
pub open spec fn any_ok(objs: Seq<JsonV>) -> bool {
    exists|i: int| 0 <= i < objs.len() && succeeded(#[trigger] objs[i])
}

/// Whether any of the objects reports success.
pub fn ok(objs: &Vec<Json>) -> (r: bool)
    ensures
        r == any_ok(jsons(objs@)),
{
    for i in 0..objs.len()
        invariant
            forall|j: int| 0 <= j < i ==> !succeeded(#[trigger] jsons(objs@)[j]),
    {
        let good = match objs[i].get("heos") {
            Some(h) => is_text(h.str_at("result"), "success"),
            None => false,
        };
        if good {
            assert(succeeded(jsons(objs@)[i as int]));
            return true;
        }
        assert(!succeeded(jsons(objs@)[i as int]));
    }
    false
}

/// The elements of an object's payload; none where it is no array.
pub open spec fn payload_items(o: JsonV) -> Seq<JsonV> {
    match o.arr_at("payload"@) {
        Some(a) => a,
        None => Seq::empty(),
    }
}

/// The elements of the payloads, one behind the other.
pub open spec fn all_items(objs: Seq<JsonV>) -> Seq<JsonV>
    decreases objs.len(),
{
    if objs.len() == 0 {
        Seq::empty()
    } else {
        all_items(objs.drop_last()) + payload_items(objs.last())
    }
}

/// The elements of the payloads, one behind the other.
pub fn items_of(objs: &Vec<Json>) -> (r: Vec<Json>)
    ensures
        jsons(r@) == all_items(jsons(objs@)),
{
    let mut r: Vec<Json> = Vec::new();
    let ghost all = jsons(objs@);
    assert(all.take(0) == Seq::<JsonV>::empty());
    assert(jsons(r@) == all_items(all.take(0)));
    for i in 0..objs.len()
        invariant
            all == jsons(objs@),
            jsons(r@) == all_items(all.take(i as int)),
    {
        proof {
            assert(all.take(i + 1).drop_last() == all.take(i as int));
            assert(all.take(i + 1).last() == objs@[i as int]@);
        }
        let ghost before = jsons(r@);
        match objs[i].arr_at("payload") {
            Some(a) => {
                for k in 0..a.len()
                    invariant
                        jsons(r@) == before + jsons(a@).take(k as int),
                {
                    let ghost prev = jsons(r@);
                    r.push(a[k].copy());
                    assert(jsons(r@) == prev.push(a@[k as int]@));
                    assert(jsons(a@).take(k + 1) == jsons(a@).take(k as int).push(a@[k as int]@));
                }
                assert(jsons(a@).take(a.len() as int) == jsons(a@));
            },
            None => {},
        }
        assert(jsons(r@) == before + payload_items(objs@[i as int]@));
    }
    assert(all.take(objs.len() as int) == all);
    r
}

// ---- players ----

/// A speaker.
pub struct HeosPlayer {
    pub name: String,
    pub pid: i64,
    pub model: String,
    pub ip: String,
    pub network: String,
    pub state: Option<String>,
    pub volume: Option<i32>,
}

/// The model of a [`HeosPlayer`].
#[verifier::ext_equal]
pub struct PlayerV {
    pub name: Seq<char>,
    pub pid: i64,
    pub model: Seq<char>,
    pub ip: Seq<char>,
    pub network: Seq<char>,
    pub state: Option<Seq<char>>,
    pub volume: Option<i32>,
}

impl View for HeosPlayer {
    type V = PlayerV;

    open spec fn view(&self) -> PlayerV {
        PlayerV {
            name: self.name@,
            pid: self.pid,
            model: self.model@,
            ip: self.ip@,
            network: self.network@,
            state: opt_view(self.state),
            volume: self.volume,
        }
    }
}

/// The models of a list of speakers.
pub open spec fn players_view(v: Seq<HeosPlayer>) -> Seq<PlayerV> {
    Seq::new(v.len(), |i: int| v[i]@)
}

impl HeosPlayer {
    /// A copy.
    pub fn copy(&self) -> (p: HeosPlayer)
        ensures
            p@ == self@,
    {
        HeosPlayer {
            name: self.name.clone(),
            pid: self.pid,
            model: self.model.clone(),
            ip: self.ip.clone(),
            network: self.network.clone(),
            state: opt_copy(&self.state),
            volume: self.volume,
        }
    }
}

/// The fields of a query string.
pub open spec fn fields(msg: Seq<char>) -> Seq<Seq<char>> {
    split(msg, |x: char| x == '&')
}

/// A player with one field of a query string taken over: its state, or a volume that is a
/// number.
pub open spec fn with_field(p: PlayerV, kv: Seq<char>) -> PlayerV {
    match cut_first(kv, '=') {
        Some((k, v)) => if k == "state"@ {
            PlayerV { state: Some(v), ..p }
        } else if k == "level"@ {
            match int_in(v, i32::MIN as int, i32::MAX as int) {
                Some(n) => PlayerV { volume: Some(n as i32), ..p },
                None => p,
            }
        } else {
            p
        },
        None => p,
    }
}

/// A player with the fields taken over in their order.
pub open spec fn with_fields(p: PlayerV, kvs: Seq<Seq<char>>) -> PlayerV
    decreases kvs.len(),
{
    if kvs.len() == 0 {
        p
    } else {
        with_field(with_fields(p, kvs.drop_last()), kvs.last())
    }
}

/// A player with the payload of an object taken over.
pub open spec fn with_payload(p: PlayerV, o: JsonV) -> PlayerV {
    match o.get("payload"@) {
        Some(pl) => PlayerV {
            state: match pl.str_at("state"@) {
                Some(s) => Some(s),
                None => p.state,
            },
            volume: match pl.i64_at("level"@) {
                Some(n) => Some(n as i32),
                None => p.volume,
            },
            ..p
        },
        None => p,
    }
}

/// A player with what the objects say taken over in their order.
pub open spec fn applied(p: PlayerV, objs: Seq<JsonV>) -> PlayerV
    decreases objs.len(),
{
    if objs.len() == 0 {
        p
    } else {
        let o = objs.last();
        with_payload(with_fields(applied(p, objs.drop_last()), fields(message(o))), o)
    }
}

fn apply_field(p: &mut HeosPlayer, kv: &str)
    ensures
        final(p)@ == with_field(old(p)@, kv@),
{
    match split_once(kv, '=') {
        Some((k, v)) => {
            if same(k.as_str(), "state") {
                p.state = Some(v);
            } else if same(k.as_str(), "level") {
                match parse_i32(v.as_str()) {
                    Some(n) => {
                        p.volume = Some(n);
                    },
                    None => {},
                }
            }
        },
        None => {},
    }
}

/// Takes over what the objects say of a player's state and volume.
pub fn apply_msg(p: &mut HeosPlayer, objs: &Vec<Json>)
    ensures
        final(p)@ == applied(old(p)@, jsons(objs@)),
{
    assert(jsons(objs@).take(0) == Seq::<JsonV>::empty());
    for i in 0..objs.len()
        invariant
            p@ == applied(old(p)@, jsons(objs@).take(i as int)),
    {
        proof {
            assert(jsons(objs@).take(i + 1).drop_last() == jsons(objs@).take(i as int));
            assert(jsons(objs@).take(i + 1).last() == objs@[i as int]@);
        }
        let kvs = split_at_char(message_of(&objs[i]).as_str(), '&');
        let ghost start = p@;
        assert(views(kvs@).take(0) == Seq::<Seq<char>>::empty());
        for k in 0..kvs.len()
            invariant
                p@ == with_fields(start, views(kvs@).take(k as int)),
        {
            proof {
                assert(views(kvs@).take(k + 1).drop_last() == views(kvs@).take(k as int));
                assert(views(kvs@).take(k + 1).last() == kvs@[k as int]@);
            }
            apply_field(p, kvs[k].as_str());
        }
        assert(views(kvs@).take(kvs.len() as int) == views(kvs@));
        match objs[i].get("payload") {
            Some(pl) => {
                match pl.str_at("state") {
                    Some(s) => {
                        p.state = Some(s.to_owned());
                    },
                    None => {},
                }
                match pl.i64_at("level") {
                    Some(n) => {
                        p.volume = Some(n as i32);
                    },
                    None => {},
                }
            },
            None => {},
        }
    }
    assert(jsons(objs@).take(objs.len() as int) == jsons(objs@));
}

// ---- who is there ----

/// A speaker as the roster lists it; one that names no address is reached by `ip`.
pub open spec fn listed_player(v: JsonV, ip: Seq<char>) -> PlayerV {
    PlayerV {
        name: v.str_or("name"@, "?"@),
        pid: match v.i64_at("pid"@) {
            Some(n) => n,
            None => 0,
        },
        model: v.str_or("model"@, "?"@),
        ip: v.str_or("ip"@, ip),
        network: v.str_or("network"@, ""@),
        state: None,
        volume: None,
    }
}

/// The roster in the replies of one speaker: the first payload that lists any.
pub open spec fn roster_in(objs: Seq<JsonV>, ip: Seq<char>) -> Seq<PlayerV>
    decreases objs.len(),
{
    if objs.len() == 0 {
        Seq::empty()
    } else {
        let a = payload_items(objs[0]);
        if a.len() > 0 {
            Seq::new(a.len(), |i: int| listed_player(a[i], ip))
        } else {
            roster_in(objs.skip(1), ip)
        }
    }
}

/// The request for the roster.
pub fn roster_uri() -> (s: String)
    ensures
        s@ == "heos://player/get_players"@,
{
    "heos://player/get_players".to_owned()
}

/// The speakers that one speaker lists. Any of them knows them all; one that lists none
/// leaves the question to the next.
pub fn roster(objs: &Vec<Json>, ip: &str) -> (r: Vec<HeosPlayer>)
    ensures
        players_view(r@) == roster_in(jsons(objs@), ip@),
{
    let ghost all = jsons(objs@);
    assert(all.skip(0) == all);
    for i in 0..objs.len()
        invariant
            all == jsons(objs@),
            roster_in(all, ip@) == roster_in(all.skip(i as int), ip@),
    {
        proof {
            assert(all.skip(i as int)[0] == objs@[i as int]@);
            assert(all.skip(i as int).skip(1) == all.skip(i + 1));
        }
        match objs[i].arr_at("payload") {
            Some(a) => {
                let mut out: Vec<HeosPlayer> = Vec::new();
                for k in 0..a.len()
                    invariant
                        out.len() == k,
                        forall|j: int| 0 <= j < k ==> (#[trigger] out@[j])@ == listed_player(a@[j]@, ip@),
                {
                    let v = &a[k];
                    let pid: i64 = match v.i64_at("pid") {
                        Some(n) => n,
                        None => 0,
                    };
                    out.push(
                        HeosPlayer {
                            name: v.str_or("name", "?"),
                            pid,
                            model: v.str_or("model", "?"),
                            ip: v.str_or("ip", ip),
                            network: v.str_or("network", ""),
                            state: None,
                            volume: None,
                        },
                    );
                }
                assert(jsons(a@) == payload_items(objs@[i as int]@));
                if out.len() > 0 {
                    assert(players_view(out@) == roster_in(all, ip@));
                    return out;
                }
            },
            None => {},
        }
    }
    let r: Vec<HeosPlayer> = Vec::new();
    assert(players_view(r@) == Seq::<PlayerV>::empty());
    r
}

/// `list` with `s` behind it, unless it is there already.
pub open spec fn with_new(list: Seq<Seq<char>>, s: Seq<char>) -> Seq<Seq<char>> {
    if holds(list, s) {
        list
    } else {
        list.push(s)
    }
}

/// The addresses that players list, each once.
pub open spec fn addresses(players: Seq<JsonV>) -> Seq<Seq<char>>
    decreases players.len(),
{
    if players.len() == 0 {
        Seq::empty()
    } else {
        let front = addresses(players.drop_last());
        match players.last().str_at("ip"@) {
            Some(ip) => with_new(front, ip),
            None => front,
        }
    }
}

/// The addresses to try before a sweep: those of a stored fleet, then two fixed ones.
pub open spec fn known_addresses(cache: Seq<char>) -> Seq<Seq<char>> {
    let stored = match parsed_or_null(cache).arr_at("players"@) {
        Some(a) => addresses(a),
        None => Seq::empty(),
    };
    with_new(with_new(stored, "192.168.8.184"@), "192.168.8.185"@)
}

fn push_new(list: &mut Vec<String>, s: &str)
    ensures
        views(final(list)@) == with_new(views(old(list)@), s@),
{
    if !list_has(&*list, s) {
        list.push(s.to_owned());
        assert(views(list@) == views(old(list)@).push(s@));
    }
}

/// The addresses to try before a sweep, from the text of the fleet's cache file. Those that
/// answer are used; where none does, a sweep is.
pub fn sweep_known(cache: &str) -> (r: Vec<String>)
    ensures
        views(r@) == known_addresses(cache@),
{
    let mut ips: Vec<String> = Vec::new();
    let v = parse_or_null(cache);
    assert(views(ips@) == Seq::<Seq<char>>::empty());
    match v.arr_at("players") {
        Some(a) => {
            assert(jsons(a@).take(0) == Seq::<JsonV>::empty());
            for i in 0..a.len()
                invariant
                    views(ips@) == addresses(jsons(a@).take(i as int)),
            {
                proof {
                    assert(jsons(a@).take(i + 1).drop_last() == jsons(a@).take(i as int));
                    assert(jsons(a@).take(i + 1).last() == a@[i as int]@);
                }
                match a[i].str_at("ip") {
                    Some(ip) => push_new(&mut ips, ip),
                    None => {},
                }
            }
            assert(jsons(a@).take(a.len() as int) == jsons(a@));
        },
        None => {},
    }
    push_new(&mut ips, "192.168.8.184");
    push_new(&mut ips, "192.168.8.185");
    ips
}

/// The own address, unless it is a loopback one.
pub fn local_ip(ip: &str) -> (r: Option<String>)
    ensures
        opt_view(r) == if starts(ip@, "127."@) {
            None
        } else {
            Some(ip@)
        },
{
    if starts_with(ip, "127.") {
        None
    } else {
        Some(ip.to_owned())
    }
}

/// The addresses `base.1` to `base.(n)` but for the own one.
pub open spec fn neighbours(base: Seq<char>, own: Seq<char>, n: nat) -> Seq<Seq<char>>
    decreases n,
{
    if n == 0 {
        Seq::empty()
    } else {
        let front = neighbours(base, own, (n - 1) as nat);
        let cand = base + "."@ + dec(n as int);
        if cand == own {
            front
        } else {
            front.push(cand)
        }
    }
}

/// The addresses of the own network that a sweep probes; none where the own address has
/// no dot.
pub fn sweep(local: &str) -> (r: Vec<String>)
    ensures
        views(r@) == match cut_last(local@, '.') {
            Some((base, _)) => neighbours(base, local@, 254),
            None => Seq::empty(),
        },
{
    let mut r: Vec<String> = Vec::new();
    assert(views(r@) == Seq::<Seq<char>>::empty());
    match rsplit_once(local, '.') {
        Some((base, _last)) => {
            for n in 1u64..255u64
                invariant
                    views(r@) == neighbours(base@, local@, (n - 1) as nat),
            {
                let cand = cat3(base.as_str(), ".", dec_u64(n).as_str());
                let ghost before = views(r@);
                if !same(cand.as_str(), local) {
                    r.push(cand);
                    assert(views(r@) == before.push(cand@));
                }
            }
            r
        },
        None => r,
    }
}

/// The requests for a player's state and volume; none for one without a number.
pub open spec fn enrich_uris(p: PlayerV) -> Seq<Seq<char>> {
    if p.pid == 0 {
        Seq::empty()
    } else {
        seq![
            "heos://player/get_play_state?pid="@ + dec(p.pid as int),
            "heos://player/get_volume?pid="@ + dec(p.pid as int),
        ]
    }
}

/// The requests for a player's state and volume.
pub fn enrich_requests(p: &HeosPlayer) -> (r: Vec<String>)
    ensures
        views(r@) == enrich_uris(p@),
{
    let mut r: Vec<String> = Vec::new();
    if p.pid != 0 {
        r.push(get_state_uri(p.pid));
        r.push(cat2("heos://player/get_volume?pid=", dec_i64(p.pid).as_str()));
    }
    assert(views(r@) == enrich_uris(p@));
    r
}

/// Who is asked on behalf of all players: the first one, if its address is known.
pub fn enrich_ip(players: &Vec<HeosPlayer>) -> (r: Option<String>)
    ensures
        opt_view(r) == if players.len() > 0 && players@[0].ip@.len() > 0 {
            Some(players@[0].ip@)
        } else {
            None
        },
{
    if players.len() > 0 && !players[0].ip.as_str().is_empty() {
        Some(players[0].ip.clone())
    } else {
        None
    }
}

/// A player with the replies to its requests taken over.
pub open spec fn enriched(p: PlayerV, objs: Seq<JsonV>) -> PlayerV {
    if p.pid == 0 {
        p
    } else {
        applied(p, objs)
    }
}

/// Takes over the replies to a player's requests.
pub fn enrich(p: &mut HeosPlayer, objs: &Vec<Json>)
    ensures
        final(p)@ == enriched(old(p)@, jsons(objs@)),
{
    if p.pid != 0 {
        apply_msg(p, objs);
    }
}

// ---- the stored roster ----

/// A player as it is stored.
pub open spec fn player_json(p: PlayerV) -> JsonV {
    JsonV::Obj(
        seq![
            ("ip"@, JsonV::Str(p.ip)),
            ("model"@, JsonV::Str(p.model)),
            ("name"@, JsonV::Str(p.name)),
            ("network"@, JsonV::Str(p.network)),
            ("pid"@, int_v(p.pid as int)),
        ],
    )
}

/// The stored roster.
pub open spec fn roster_json(players: Seq<PlayerV>, ts: Seq<char>) -> JsonV {
    JsonV::Obj(
        seq![
            ("players"@, JsonV::Arr(Seq::new(players.len(), |i: int| player_json(players[i])))),
            ("ts"@, real_v(ts)),
        ],
    )
}

/// A stored player, if its name, number and address are there.
pub open spec fn stored_player(v: JsonV) -> Option<PlayerV> {
    match (v.str_at("name"@), v.i64_at("pid"@), v.str_at("ip"@)) {
        (Some(name), Some(pid), Some(ip)) => Some(
            PlayerV {
                name,
                pid,
                model: v.str_or("model"@, ""@),
                ip,
                network: v.str_or("network"@, ""@),
                state: None,
                volume: None,
            },
        ),
        _ => None,
    }
}

/// A stored player, if its name, number and address are there.
pub fn player_from_json(v: &Json) -> (r: Option<HeosPlayer>)
    ensures
        match r {
            Some(p) => stored_player(v@) == Some(p@),
            None => stored_player(v@) is None,
        },
{
    match (v.str_at("name"), v.i64_at("pid"), v.str_at("ip")) {
        (Some(name), Some(pid), Some(ip)) => Some(
            HeosPlayer {
                name: name.to_owned(),
                pid,
                model: v.str_or("model", ""),
                ip: ip.to_owned(),
                network: v.str_or("network", ""),
                state: None,
                volume: None,
            },
        ),
        _ => None,
    }
}

/// The stored players that are whole.
pub open spec fn stored_players(a: Seq<JsonV>) -> Seq<PlayerV>
    decreases a.len(),
{
    if a.len() == 0 {
        Seq::empty()
    } else {
        match stored_player(a.last()) {
            Some(p) => stored_players(a.drop_last()).push(p),
            None => stored_players(a.drop_last()),
        }
    }
}

/// A stored roster: when it was stored, as the text of a number, and who was there.
pub open spec fn cached_roster(raw: Seq<char>) -> Option<(Seq<char>, Seq<PlayerV>)> {
    let v = parsed_or_null(raw);
    match (v.get("ts"@), v.arr_at("players"@)) {
        (Some(JsonV::Num(ts)), Some(a)) => if stored_players(a).len() > 0 {
            Some((ts.text, stored_players(a)))
        } else {
            None
        },
        _ => None,
    }
}

/// Reads the stored roster. Whoever has the clock decides whether it is too old.
pub fn read_roster_cache(raw: &str) -> (r: Option<(String, Vec<HeosPlayer>)>)
    ensures
        match r {
            Some((ts, ps)) => cached_roster(raw@) == Some((ts@, players_view(ps@))),
            None => cached_roster(raw@) is None,
        },
{
    let v = parse_or_null(raw);
    let ts = match v.get("ts") {
        Some(Json::Num(n)) => n.text.clone(),
        _ => {
            return None;
        },
    };
    match v.arr_at("players") {
        Some(a) => {
            let mut ps: Vec<HeosPlayer> = Vec::new();
            assert(players_view(ps@) == stored_players(jsons(a@).take(0)));
            for i in 0..a.len()
                invariant
                    players_view(ps@) == stored_players(jsons(a@).take(i as int)),
            {
                proof {
                    assert(jsons(a@).take(i + 1).drop_last() == jsons(a@).take(i as int));
                    assert(jsons(a@).take(i + 1).last() == a@[i as int]@);
                }
                let ghost before = players_view(ps@);
                match player_from_json(&a[i]) {
                    Some(p) => {
                        ps.push(p);
                        assert(players_view(ps@) == before.push(p@));
                    },
                    None => {},
                }
            }
            assert(jsons(a@).take(a.len() as int) == jsons(a@));
            assert(players_view(ps@).len() == ps.len());
            if ps.len() == 0 {
                return None;
            }
            Some((ts, ps))
        },
        None => None,
    }
}

/// A player as it comes back from storage: without state and volume.
pub open spec fn at_rest(p: PlayerV) -> PlayerV {
    PlayerV { state: None, volume: None, ..p }
}

/// Reading `raw` gives all of `players` back: names, numbers, models, addresses and networks.
pub open spec fn keeps_roster(raw: Seq<char>, players: Seq<PlayerV>) -> bool {
    &&& cached_roster(raw) is Some
    &&& cached_roster(raw)->Some_0.1 == players.map_values(|p: PlayerV| at_rest(p))
}

proof fn lemma_decimal_numeric(t: Seq<char>)
    requires
        decimal(t),
    ensures
        numeric(t),
{
    match crate::text::first_pos(t, '.') {
        Some(i) => {
            crate::text::lemma_char_pos(t, '.');
            assert forall|k: int| 0 <= k < t.len() && k != i implies is_digit(#[trigger] t[k]) by {
                if k < i {
                    assert(t[k] == t.take(i)[k]);
                } else {
                    assert(t[k] == t.skip(i + 1)[k - i - 1]);
                }
            }
        },
        None => {},
    }
}

proof fn lemma_player_alike(v: JsonV, p: PlayerV)
    ensures
        alike(v, player_json(p)) ==> stored_player(v) == Some(at_rest(p)),
        orderly(player_json(p), 98),
{
    reveal_strlit("ip");
    reveal_strlit("model");
    reveal_strlit("name");
    reveal_strlit("network");
    reveal_strlit("pid");
    reveal_with_fuel(crate::json::member, 6);
    reveal_with_fuel(crate::order::text_le, 4);
    reveal_with_fuel(alike, 3);
    let o = player_json(p)->Obj_0;
    let w = v->Obj_0;
    assert("ip"@.len() == 2 && "model"@.len() == 5 && "name"@.len() == 4 && "network"@.len() == 7 && "pid"@.len() == 3);
    assert("ip"@[0] == 'i' && "model"@[0] == 'm' && "name"@[1] == 'a' && "network"@[1] == 'e' && "pid"@[0] == 'p');
    if alike(v, player_json(p)) {
        assert(w[0].0 == o[0].0 && w[1].0 == o[1].0 && w[2].0 == o[2].0 && w[3].0 == o[3].0 && w[4].0 == o[4].0);
        assert(w[0].1 == o[0].1 && w[1].1 == o[1].1 && w[2].1 == o[2].1 && w[3].1 == o[3].1);
        assert(w[4].1 == int_v(p.pid as int));
    }
    assert(names_ascend(o));
    assert(numeric(dec(p.pid as int))) by {
        lemma_dec_nat(if p.pid < 0 {
            (-p.pid) as nat
        } else {
            p.pid as nat
        });
    }
    assert forall|i: int| 0 <= i < o.len() implies orderly((#[trigger] o[i]).1, 97) by {}
}

proof fn lemma_players_stored(a: Seq<JsonV>, players: Seq<PlayerV>)
    requires
        a.len() == players.len(),
        forall|i: int| 0 <= i < a.len() ==> stored_player(#[trigger] a[i]) == Some(at_rest(players[i])),
    ensures
        stored_players(a) == players.map_values(|p: PlayerV| at_rest(p)),
    decreases a.len(),
{
    if a.len() > 0 {
        lemma_players_stored(a.drop_last(), players.drop_last());
        assert(a.last() == a[a.len() - 1]);
    }
}

proof fn lemma_roster_alike(raw: Seq<char>, players: Seq<PlayerV>, ts: Seq<char>)
    requires
        decimal(ts),
        players.len() > 0,
    ensures
        orderly(roster_json(players, ts), 100),
        reads_alike(raw, roster_json(players, ts)) ==> keeps_roster(raw, players),
{
    reveal_strlit("players");
    reveal_strlit("ts");
    reveal_with_fuel(crate::json::member, 3);
    reveal_with_fuel(crate::order::text_le, 2);
    lemma_decimal_numeric(ts);
    assert("players"@.len() == 7 && "ts"@.len() == 2);
    let o = roster_json(players, ts)->Obj_0;
    let a = o[0].1->Arr_0;
    assert(names_ascend(o));
    assert forall|i: int| 0 <= i < a.len() implies orderly(#[trigger] a[i], 98) by {
        lemma_player_alike(a[i], players[i]);
    }
    assert(orderly(o[0].1, 99) && orderly(o[1].1, 99));
    if reads_alike(raw, roster_json(players, ts)) {
        let w = parsed_or_null(raw)->Obj_0;
        assert(w[0].0 == o[0].0 && w[1].0 == o[1].0 && alike(w[0].1, o[0].1) && alike(w[1].1, o[1].1));
        let b = w[0].1->Arr_0;
        assert forall|i: int| 0 <= i < b.len() implies stored_player(#[trigger] b[i]) == Some(at_rest(players[i])) by {
            assert(alike(b[i], a[i]));
            lemma_player_alike(b[i], players[i]);
        }
        lemma_players_stored(b, players);
    }
}

/// The text that the roster is stored as; `now` is the time as the text of a number. Where
/// that is in decimal notation, all players read back.
pub fn write_roster_cache(players: &Vec<HeosPlayer>, now: &str) -> (s: String)
    ensures
        s@ == json_compact(value_stored(roster_json(players_view(players@), now@))),
        decimal(now@) && players.len() > 0 ==> keeps_roster(s@, players_view(players@)),
{
    let mut a: Vec<Json> = Vec::new();
    for i in 0..players.len()
        invariant
            a.len() == i,
            forall|k: int| 0 <= k < i ==> (#[trigger] a@[k])@ == player_json(players@[k]@),
    {
        let p = &players[i];
        let mut o: Vec<(String, Json)> = Vec::new();
        o.push(member_of("ip", json_str(p.ip.as_str())));
        o.push(member_of("model", json_str(p.model.as_str())));
        o.push(member_of("name", json_str(p.name.as_str())));
        o.push(member_of("network", json_str(p.network.as_str())));
        o.push(member_of("pid", json_i64(p.pid)));
        assert(members(o@) == player_json(p@)->Obj_0);
        a.push(json_obj(o));
    }
    let ghost all = JsonV::Arr(jsons(a@));
    let mut o: Vec<(String, Json)> = Vec::new();
    o.push(member_of("players", json_arr(a)));
    o.push(member_of("ts", json_real(now)));
    proof {
        let want = roster_json(players_view(players@), now@);
        assert(all->Arr_0 == want->Obj_0[0].1->Arr_0);
        assert(members(o@) == want->Obj_0);
    }
    let s = render(&json_obj(o));
    proof {
        if decimal(now@) && players.len() > 0 {
            lemma_roster_alike(s@, players_view(players@), now@);
        }
    }
    s
}

/// What is stored after a live discovery: nothing where nobody was found.
pub fn refresh_roster(players: &Vec<HeosPlayer>, now: &str) -> (r: Option<String>)
    ensures
        opt_view(r) == if players.len() > 0 {
            Some(json_compact(value_stored(roster_json(players_view(players@), now@))))
        } else {
            None
        },
        r matches Some(text) ==> decimal(now@) ==> keeps_roster(text@, players_view(players@)),
{
    if players.len() == 0 {
        None
    } else {
        Some(write_roster_cache(players, now))
    }
}

/// Whether a hint means a player: a part of its name, case aside, or its number.
pub open spec fn hinted(p: PlayerV, hint: Seq<char>) -> bool {
    has(lower(p.name), lower(hint)) || dec(p.pid as int) == lower(hint)
}

/// Whether a player's name holds a text that is in lower case, case aside.
pub open spec fn is_named(p: PlayerV, part: Seq<char>) -> bool {
    has(lower(p.name), part)
}

/// The first of the players that `pick` picks.
pub open spec fn first_player(players: Seq<PlayerV>, pick: spec_fn(PlayerV) -> bool) -> Option<PlayerV>
    decreases players.len(),
{
    if players.len() == 0 {
        None
    } else if pick(players[0]) {
        Some(players[0])
    } else {
        first_player(players.skip(1), pick)
    }
}

/// The default player: Vanguarda Office, else the first of that house, else the first at all.
pub open spec fn default_player(players: Seq<PlayerV>) -> Option<PlayerV> {
    match first_player(players, |p: PlayerV| is_named(p, "vanguarda office"@)) {
        Some(p) => Some(p),
        None => match first_player(players, |p: PlayerV| is_named(p, "vanguarda"@)) {
            Some(p) => Some(p),
            None => if players.len() > 0 {
                Some(players[0])
            } else {
                None
            },
        },
    }
}

/// The player that is meant: the first that the hint means; without a hint the default one.
pub open spec fn resolved_player(players: Seq<PlayerV>, hint: Option<Seq<char>>) -> Option<PlayerV> {
    match hint {
        Some(h) => first_player(players, |p: PlayerV| hinted(p, h)),
        None => default_player(players),
    }
}

fn find_named(players: &Vec<HeosPlayer>, part: &str) -> (r: Option<HeosPlayer>)
    ensures
        match r {
            Some(p) => first_player(players_view(players@), |p: PlayerV| is_named(p, part@)) == Some(p@),
            None => first_player(players_view(players@), |p: PlayerV| is_named(p, part@)) is None,
        },
{
    let ghost all = players_view(players@);
    assert(all.skip(0) == all);
    let ghost pick = |p: PlayerV| is_named(p, part@);
    for i in 0..players.len()
        invariant
            all == players_view(players@),
            pick == (|p: PlayerV| is_named(p, part@)),
            first_player(all, pick) == first_player(all.skip(i as int), pick),
    {
        proof {
            assert(all.skip(i as int)[0] == players@[i as int]@);
            assert(all.skip(i as int).skip(1) == all.skip(i + 1));
        }
        let p = &players[i];
        if contains(lowered(p.name.as_str()).as_str(), part) {
            return Some(p.copy());
        }
    }
    None
}

/// The player that is meant.
pub fn resolve(players: &Vec<HeosPlayer>, hint: Option<&str>) -> (r: Option<HeosPlayer>)
    ensures
        match r {
            Some(p) => resolved_player(players_view(players@), opt_str(hint)) == Some(p@),
            None => resolved_player(players_view(players@), opt_str(hint)) is None,
        },
{
    let ghost all = players_view(players@);
    assert(all.skip(0) == all);
    match hint {
        Some(h) => {
            let lo = lowered(h);
            let ghost pick = |p: PlayerV| hinted(p, h@);
            for i in 0..players.len()
                invariant
                    lo@ == lower(h@),
                    opt_str(hint) == Some(h@),
                    all == players_view(players@),
                    pick == (|p: PlayerV| hinted(p, h@)),
                    first_player(all, pick) == first_player(all.skip(i as int), pick),
            {
                proof {
                    assert(all.skip(i as int)[0] == players@[i as int]@);
                    assert(all.skip(i as int).skip(1) == all.skip(i + 1));
                }
                let p = &players[i];
                if contains(lowered(p.name.as_str()).as_str(), lo.as_str()) || same(
                    dec_i64(p.pid).as_str(),
                    lo.as_str(),
                ) {
                    return Some(p.copy());
                }
            }
            None
        },
        None => {
            match find_named(players, "vanguarda office") {
                Some(p) => {
                    return Some(p);
                },
                None => {},
            }
            match find_named(players, "vanguarda") {
                Some(p) => {
                    return Some(p);
                },
                None => {},
            }
            if players.len() > 0 {
                assert(all[0] == players@[0]@);
                Some(players[0].copy())
            } else {
                None
            }
        },
    }
}

// ---- requests ----

/// A request about a player.
pub open spec fn player_uri(verb: Seq<char>, pid: i64) -> Seq<char> {
    "heos://player/"@ + verb + "?pid="@ + dec(pid as int)
}

fn player_request(verb: &str, pid: i64) -> (s: String)
    ensures
        s@ == player_uri(verb@, pid),
{
    cat4("heos://player/", verb, "?pid=", dec_i64(pid).as_str())
}

/// The request that sets the play state.
pub fn set_state(pid: i64, state: &str) -> (s: String)
    ensures
        s@ == player_uri("set_play_state"@, pid) + "&state="@ + state@,
{
    cat3(player_request("set_play_state", pid).as_str(), "&state=", state)
}

/// The request for the play state.
pub fn get_state_uri(pid: i64) -> (s: String)
    ensures
        s@ == "heos://player/get_play_state?pid="@ + dec(pid as int),
{
    cat2("heos://player/get_play_state?pid=", dec_i64(pid).as_str())
}

/// The value of the first field of that name.
pub open spec fn field_in(kvs: Seq<Seq<char>>, key: Seq<char>) -> Option<Seq<char>>
    decreases kvs.len(),
{
    if kvs.len() == 0 {
        None
    } else {
        match cut_first(kvs[0], '=') {
            Some((k, v)) => if k == key {
                Some(v)
            } else {
                field_in(kvs.skip(1), key)
            },
            None => field_in(kvs.skip(1), key),
        }
    }
}

/// The play state that the first reply with one gives.
pub open spec fn state_in(objs: Seq<JsonV>) -> Option<Seq<char>>
    decreases objs.len(),
{
    if objs.len() == 0 {
        None
    } else {
        match field_in(fields(message(objs[0])), "state"@) {
            Some(s) => Some(s),
            None => state_in(objs.skip(1)),
        }
    }
}

fn field_of(msg: &str, key: &str) -> (r: Option<String>)
    ensures
        opt_view(r) == field_in(fields(msg@), key@),
{
    let kvs = split_at_char(msg, '&');
    assert(views(kvs@).skip(0) == views(kvs@));
    for i in 0..kvs.len()
        invariant
            views(kvs@) == fields(msg@),
            field_in(views(kvs@), key@) == field_in(views(kvs@).skip(i as int), key@),
    {
        proof {
            assert(views(kvs@).skip(i as int)[0] == kvs@[i as int]@);
            assert(views(kvs@).skip(i as int).skip(1) == views(kvs@).skip(i + 1));
        }
        match split_once(kvs[i].as_str(), '=') {
            Some((k, v)) => {
                if same(k.as_str(), key) {
                    return Some(v);
                }
            },
            None => {},
        }
    }
    None
}

/// The play state that the replies give.
pub fn get_state(objs: &Vec<Json>) -> (r: Option<String>)
    ensures
        opt_view(r) == state_in(jsons(objs@)),
{
    let ghost all = jsons(objs@);
    assert(all.skip(0) == all);
    for i in 0..objs.len()
        invariant
            all == jsons(objs@),
            state_in(all) == state_in(all.skip(i as int)),
    {
        proof {
            assert(all.skip(i as int)[0] == objs@[i as int]@);
            assert(all.skip(i as int).skip(1) == all.skip(i + 1));
        }
        match field_of(message_of(&objs[i]).as_str(), "state") {
            Some(s) => {
                return Some(s);
            },
            None => {},
        }
    }
    None
}

/// The state that a toggle sends: a player that plays is paused, any other plays.
pub open spec fn toggled(state: Option<Seq<char>>) -> Seq<char> {
    if state == Some("play"@) {
        "pause"@
    } else {
        "play"@
    }
}

/// The state that a toggle sends.
pub fn toggle(state: Option<&str>) -> (s: String)
    ensures
        s@ == toggled(opt_str(state)),
{
    if is_text(state, "play") {
        "pause".to_owned()
    } else {
        "play".to_owned()
    }
}

/// `n` brought into the range from `lo` to `hi`.
pub open spec fn clamped(n: int, lo: int, hi: int) -> int {
    if n < lo {
        lo
    } else if n > hi {
        hi
    } else {
        n
    }
}

/// The request that sets the volume, from 0 to 100.
pub fn set_volume(pid: i64, level: i32) -> (s: String)
    ensures
        s@ == player_uri("set_volume"@, pid) + "&level="@ + dec(clamped(level as int, 0, 100)),
{
    let level: i32 = if level < 0 {
        0
    } else if level > 100 {
        100
    } else {
        level
    };
    cat3(player_request("set_volume", pid).as_str(), "&level=", dec_i64(level as i64).as_str())
}

/// The request that mutes or unmutes.
pub fn set_mute(pid: i64, on: bool) -> (s: String)
    ensures
        s@ == player_uri("set_mute"@, pid) + "&state="@ + (if on {
            "on"@
        } else {
            "off"@
        }),
{
    cat3(player_request("set_mute", pid).as_str(), "&state=", if on { "on" } else { "off" })
}

/// The request for the next track.
pub fn play_next(pid: i64) -> (s: String)
    ensures
        s@ == player_uri("play_next"@, pid),
{
    player_request("play_next", pid)
}

/// The request for the previous track.
pub fn play_previous(pid: i64) -> (s: String)
    ensures
        s@ == player_uri("play_previous"@, pid),
{
    player_request("play_previous", pid)
}

// ---- the speaker's queue ----

/// A track in a speaker's queue.
pub struct QueueEntry {
    pub qid: i64,
    pub song: String,
    pub artist: String,
    pub album: String,
    pub mid: String,
}

/// The model of a [`QueueEntry`].
#[verifier::ext_equal]
pub struct EntryV {
    pub qid: i64,
    pub song: Seq<char>,
    pub artist: Seq<char>,
    pub album: Seq<char>,
    pub mid: Seq<char>,
}

impl View for QueueEntry {
    type V = EntryV;

    open spec fn view(&self) -> EntryV {
        EntryV { qid: self.qid, song: self.song@, artist: self.artist@, album: self.album@, mid: self.mid@ }
    }
}

/// The models of a list of entries.
pub open spec fn entries_view(v: Seq<QueueEntry>) -> Seq<EntryV> {
    Seq::new(v.len(), |i: int| v[i]@)
}

/// An entry as a speaker lists it.
pub open spec fn entry_of(v: JsonV) -> EntryV {
    EntryV {
        qid: match v.i64_at("qid"@) {
            Some(n) => n,
            None => 0,
        },
        song: v.str_or("song"@, "?"@),
        artist: v.str_or("artist"@, ""@),
        album: v.str_or("album"@, ""@),
        mid: v.str_or("mid"@, ""@),
    }
}

/// The request for the queue.
pub fn get_queue_uri(pid: i64) -> (s: String)
    ensures
        s@ == player_uri("get_queue"@, pid),
{
    player_request("get_queue", pid)
}

/// The queue that the replies list.
pub fn get_queue(objs: &Vec<Json>) -> (r: Vec<QueueEntry>)
    ensures
        entries_view(r@) == all_items(jsons(objs@)).map_values(|v: JsonV| entry_of(v)),
{
    let items = items_of(objs);
    let mut r: Vec<QueueEntry> = Vec::new();
    for i in 0..items.len()
        invariant
            r.len() == i,
            forall|k: int| 0 <= k < i ==> (#[trigger] r@[k])@ == entry_of(items@[k]@),
    {
        let v = &items[i];
        let qid: i64 = match v.i64_at("qid") {
            Some(n) => n,
            None => 0,
        };
        r.push(
            QueueEntry {
                qid,
                song: v.str_or("song", "?"),
                artist: v.str_or("artist", ""),
                album: v.str_or("album", ""),
                mid: v.str_or("mid", ""),
            },
        );
    }
    assert(entries_view(r@) == jsons(items@).map_values(|v: JsonV| entry_of(v)));
    r
}

/// The request that plays a track of the queue.
pub fn play_queue(pid: i64, qid: i64) -> (s: String)
    ensures
        s@ == player_uri("play_queue"@, pid) + "&qid="@ + dec(qid as int),
{
    cat3(player_request("play_queue", pid).as_str(), "&qid=", dec_i64(qid).as_str())
}

/// The request that removes a track of the queue.
pub fn remove_from_queue(pid: i64, qid: i64) -> (s: String)
    ensures
        s@ == player_uri("remove_from_queue"@, pid) + "&qid="@ + dec(qid as int),
{
    cat3(player_request("remove_from_queue", pid).as_str(), "&qid=", dec_i64(qid).as_str())
}

/// The request that empties the queue.
pub fn clear_queue(pid: i64) -> (s: String)
    ensures
        s@ == player_uri("clear_queue"@, pid),
{
    player_request("clear_queue", pid)
}

/// The request that moves a track within the queue.
pub fn move_queue_item(pid: i64, sqid: i64, dqid: i64) -> (s: String)
    ensures
        s@ == player_uri("move_queue_item"@, pid) + "&sqid="@ + dec(sqid as int) + "&dqid="@ + dec(dqid as int),
{
    cat5(
        player_request("move_queue_item", pid).as_str(),
        "&sqid=",
        dec_i64(sqid).as_str(),
        "&dqid=",
        dec_i64(dqid).as_str(),
    )
}

// ---- radio by TuneIn ----

/// A TuneIn station.
pub struct TuneinHit {
    pub mid: String,
    pub name: String,
}

/// The model of a [`TuneinHit`].
#[verifier::ext_equal]
pub struct HitV {
    pub mid: Seq<char>,
    pub name: Seq<char>,
}

impl View for TuneinHit {
    type V = HitV;

    open spec fn view(&self) -> HitV {
        HitV { mid: self.mid@, name: self.name@ }
    }
}

/// The models of a list of stations.
pub open spec fn hits_view(v: Seq<TuneinHit>) -> Seq<HitV> {
    Seq::new(v.len(), |i: int| v[i]@)
}

/// The request that searches TuneIn for stations.
pub fn tunein_uri(query: &str) -> (s: String)
    ensures
        s@ == "heos://browse/search?sid=3&scid=4&search="@ + path_text(trim(query@)),
{
    cat2("heos://browse/search?sid=3&scid=4&search=", percent_encode_path(trimmed(query).as_str()).as_str())
}

/// Whether to go on waiting for a search result when a read brought nothing: not once data
/// came and then two seconds passed without any, nor when more than twelve have passed in
/// all.
pub fn tunein_waits(any_data: bool, quiet_secs: u64, total_secs: u64) -> (go_on: bool)
    ensures
        go_on == (!(any_data && quiet_secs >= 2) && total_secs <= 12),
{
    !(any_data && quiet_secs >= 2) && total_secs <= 12
}

/// A station that a search found, if it can be played.
pub open spec fn hit_of(v: JsonV) -> Option<HitV> {
    let mid = v.str_or("mid"@, ""@);
    let name = v.str_or("name"@, ""@);
    if mid.len() == 0 || name.len() == 0 || v.str_or("playable"@, "yes"@) != "yes"@ {
        None
    } else {
        Some(HitV { mid, name })
    }
}

/// The stations that can be played.
pub open spec fn hits_in(items: Seq<JsonV>) -> Seq<HitV>
    decreases items.len(),
{
    if items.len() == 0 {
        Seq::empty()
    } else {
        match hit_of(items.last()) {
            Some(h) => hits_in(items.drop_last()).push(h),
            None => hits_in(items.drop_last()),
        }
    }
}

/// The stations that the replies to a search list.
pub fn tunein_search(objs: &Vec<Json>) -> (r: Vec<TuneinHit>)
    ensures
        hits_view(r@) == hits_in(all_items(jsons(objs@))),
{
    let items = items_of(objs);
    let mut r: Vec<TuneinHit> = Vec::new();
    assert(hits_view(r@) == hits_in(jsons(items@).take(0)));
    for i in 0..items.len()
        invariant
            hits_view(r@) == hits_in(jsons(items@).take(i as int)),
    {
        proof {
            assert(jsons(items@).take(i + 1).drop_last() == jsons(items@).take(i as int));
            assert(jsons(items@).take(i + 1).last() == items@[i as int]@);
        }
        let v = &items[i];
        let mid = v.str_or("mid", "");
        let name = v.str_or("name", "");
        let ghost before = hits_view(r@);
        if !(mid.as_str().is_empty() || name.as_str().is_empty() || !same(v.str_or("playable", "yes").as_str(), "yes")) {
            let h = TuneinHit { mid, name };
            r.push(h);
            assert(hits_view(r@) == before.push(h@));
        }
    }
    assert(jsons(items@).take(items.len() as int) == jsons(items@));
    r
}

/// The request that plays a station.
pub fn tunein_play(pid: i64, hit: &TuneinHit) -> (s: String)
    ensures
        s@ == "heos://browse/play_stream?pid="@ + dec(pid as int) + "&sid=3&mid="@ + hit@.mid,
{
    cat4("heos://browse/play_stream?pid=", dec_i64(pid).as_str(), "&sid=3&mid=", hit.mid.as_str())
}

// ---- what was put on ----

/// The note of a file that was put on; `ts` is the time as the text of a number.
pub open spec fn cast_note(path: Seq<char>, ts: Seq<char>) -> JsonV {
    JsonV::Obj(seq![("path"@, JsonV::Str(path)), ("ts"@, real_v(ts))])
}

/// The note of a station that was put on.
pub open spec fn radio_note(url: Seq<char>, title: Seq<char>, ts: Seq<char>) -> JsonV {
    JsonV::Obj(seq![("path"@, JsonV::Str(url)), ("title"@, JsonV::Str(title)), ("ts"@, real_v(ts))])
}

proof fn lemma_notes_alike(v: JsonV, path: Seq<char>, title: Seq<char>, ts: Seq<char>)
    ensures
        alike(v, cast_note(path, ts)) ==> v.str_at("path"@) == Some(path) && noted_title(v) is None,
        alike(v, radio_note(path, title, ts)) ==> v.str_at("path"@) == Some(path) && noted_title(v) == Some(title),
        (alike(v, cast_note(path, ts)) || alike(v, radio_note(path, title, ts))) && decimal(ts) ==> noted_path(v) == Some(
            path,
        ),
        numeric(ts) ==> orderly(cast_note(path, ts), 100) && orderly(radio_note(path, title, ts), 100),
{
    reveal_strlit("path");
    reveal_strlit("title");
    reveal_strlit("ts");
    reveal_with_fuel(crate::json::member, 4);
    reveal_with_fuel(crate::order::text_le, 3);
    reveal_with_fuel(alike, 3);
    assert("path"@.len() == 4 && "title"@.len() == 5 && "ts"@.len() == 2);
    let c = cast_note(path, ts)->Obj_0;
    let r = radio_note(path, title, ts)->Obj_0;
    let w = v->Obj_0;
    if alike(v, cast_note(path, ts)) {
        assert(c[0].0 == "path"@ && c[1].0 == "ts"@);
        assert(w[0].0 == "path"@ && w[1].0 == "ts"@ && w[0].1 == c[0].1);
    }
    if alike(v, radio_note(path, title, ts)) {
        assert(r[0].0 == "path"@ && r[1].0 == "title"@ && r[2].0 == "ts"@);
        assert(w[0].0 == "path"@ && w[1].0 == "title"@ && w[2].0 == "ts"@);
        assert(w[0].1 == r[0].1 && w[1].1 == r[1].1);
    }
    if numeric(ts) {
        assert(names_ascend(c));
        assert(names_ascend(r));
        assert(orderly(c[0].1, 99) && orderly(c[1].1, 99));
        assert(orderly(r[0].1, 99) && orderly(r[1].1, 99) && orderly(r[2].1, 99));
    }
}

/// The text that notes a file that was put on. The path reads back from it, and no title.
pub fn note_cast(path: &str, ts: &str) -> (s: String)
    ensures
        s@ == json_compact(value_stored(cast_note(path@, ts@))),
        numeric(ts@) ==> parsed_or_null(s@).str_at("path"@) == Some(path@) && noted_title(parsed_or_null(s@)) is None,
        decimal(ts@) ==> noted_path(parsed_or_null(s@)) == Some(path@),
{
    let mut o: Vec<(String, Json)> = Vec::new();
    o.push(member_of("path", json_str(path)));
    o.push(member_of("ts", json_real(ts)));
    assert(members(o@) == cast_note(path@, ts@)->Obj_0);
    let s = render(&json_obj(o));
    proof {
        lemma_notes_alike(parsed_or_null(s@), path@, path@, ts@);
        if decimal(ts@) {
            lemma_decimal_numeric(ts@);
        }
    }
    s
}

/// The text that notes a station that was put on. Its address and title read back from it.
pub fn note_radio(url: &str, title: &str, ts: &str) -> (s: String)
    ensures
        s@ == json_compact(value_stored(radio_note(url@, title@, ts@))),
        numeric(ts@) ==> parsed_or_null(s@).str_at("path"@) == Some(url@) && noted_title(parsed_or_null(s@)) == Some(
            title@,
        ),
        decimal(ts@) ==> noted_path(parsed_or_null(s@)) == Some(url@),
{
    let mut o: Vec<(String, Json)> = Vec::new();
    o.push(member_of("path", json_str(url)));
    o.push(member_of("title", json_str(title)));
    o.push(member_of("ts", json_real(ts)));
    assert(members(o@) == radio_note(url@, title@, ts@)->Obj_0);
    let s = render(&json_obj(o));
    proof {
        lemma_notes_alike(parsed_or_null(s@), url@, title@, ts@);
        if decimal(ts@) {
            lemma_decimal_numeric(ts@);
        }
    }
    s
}

/// The title that a note holds.
pub open spec fn noted_title(v: JsonV) -> Option<Seq<char>> {
    v.str_at("title"@)
}

/// The path and the time that a note holds.
pub open spec fn noted_cast(v: JsonV) -> Option<(Seq<char>, Seq<char>)> {
    match (v.str_at("path"@), v.get("ts"@)) {
        (Some(p), Some(JsonV::Num(n))) => Some((p, n.text)),
        _ => None,
    }
}

/// The path that a note holds beside a time.
pub open spec fn noted_path(v: JsonV) -> Option<Seq<char>> {
    match noted_cast(v) {
        Some((p, _)) => Some(p),
        None => None,
    }
}

/// The title of the station that was last put on, if it was one.
pub fn last_radio_title(raw: &str) -> (r: Option<String>)
    ensures
        opt_view(r) == noted_title(parsed_or_null(raw@)),
{
    let v = parse_or_null(raw);
    match v.str_at("title") {
        Some(t) => Some(t.to_owned()),
        None => None,
    }
}

/// What was last put on, and when, as the text of a number.
pub fn last_cast(raw: &str) -> (r: Option<(String, String)>)
    ensures
        pair_view(r) == noted_cast(parsed_or_null(raw@)),
{
    let v = parse_or_null(raw);
    match (v.str_at("path"), v.get("ts")) {
        (Some(p), Some(Json::Num(n))) => Some((p.to_owned(), n.text.clone())),
        _ => None,
    }
}

// ---- laws ----

/// Whether a text, read from `from` on, ends outside of an object.
pub open spec fn closed_text(s: Seq<char>, from: int) -> bool
    decreases s.len() - from,
{
    if from < 0 || from >= s.len() {
        true
    } else if s[from] != '{' {
        closed_text(s, from + 1)
    } else {
        proof {
            lemma_obj_end(s, from, 0, false, false);
        }
        match obj_end(s, from, 0, false, false) {
            Some(e) => closed_text(s, e),
            None => false,
        }
    }
}

proof fn lemma_obj_end_kept(a: Seq<char>, b: Seq<char>, i: int, depth: int, in_str: bool, esc: bool)
    requires
        0 <= i,
        obj_end(a, i, depth, in_str, esc) is Some,
    ensures
        obj_end(a + b, i, depth, in_str, esc) == obj_end(a, i, depth, in_str, esc),
    decreases a.len() - i,
{
    let c = a[i];
    assert((a + b)[i] == c);
    if in_str {
        if esc {
            lemma_obj_end_kept(a, b, i + 1, depth, true, false);
        } else if c == '\\' {
            lemma_obj_end_kept(a, b, i + 1, depth, true, true);
        } else {
            lemma_obj_end_kept(a, b, i + 1, depth, c != '"', false);
        }
    } else if c == '"' {
        lemma_obj_end_kept(a, b, i + 1, depth, true, false);
    } else if c == '{' {
        lemma_obj_end_kept(a, b, i + 1, depth + 1, false, false);
    } else if c == '}' {
        if depth != 1 {
            lemma_obj_end_kept(a, b, i + 1, depth - 1, false, false);
        }
    } else {
        lemma_obj_end_kept(a, b, i + 1, depth, false, false);
    }
}

proof fn lemma_obj_end_shift(a: Seq<char>, b: Seq<char>, i: int, depth: int, in_str: bool, esc: bool)
    requires
        0 <= i,
    ensures
        obj_end(a + b, a.len() + i, depth, in_str, esc) == match obj_end(b, i, depth, in_str, esc) {
            Some(e) => Some(a.len() + e),
            None => None,
        },
    decreases b.len() - i,
{
    if i < b.len() {
        let c = b[i];
        assert((a + b)[a.len() + i] == c);
        if in_str {
            if esc {
                lemma_obj_end_shift(a, b, i + 1, depth, true, false);
            } else if c == '\\' {
                lemma_obj_end_shift(a, b, i + 1, depth, true, true);
            } else {
                lemma_obj_end_shift(a, b, i + 1, depth, c != '"', false);
            }
        } else if c == '"' {
            lemma_obj_end_shift(a, b, i + 1, depth, true, false);
        } else if c == '{' {
            lemma_obj_end_shift(a, b, i + 1, depth + 1, false, false);
        } else if c == '}' {
            if depth != 1 {
                lemma_obj_end_shift(a, b, i + 1, depth - 1, false, false);
            }
        } else {
            lemma_obj_end_shift(a, b, i + 1, depth, false, false);
        }
    }
}

proof fn lemma_objects_shift(a: Seq<char>, b: Seq<char>, i: int)
    requires
        0 <= i,
    ensures
        objects(a + b, a.len() + i) == objects(b, i),
    decreases b.len() - i,
{
    if i < b.len() {
        assert((a + b)[a.len() + i] == b[i]);
        if b[i] != '{' {
            lemma_objects_shift(a, b, i + 1);
        } else {
            lemma_obj_end(b, i, 0, false, false);
            lemma_obj_end_shift(a, b, i, 0, false, false);
            let e = piece_end(b, i);
            assert(piece_end(a + b, a.len() + i) == a.len() + e);
            lemma_objects_shift(a, b, e);
            assert((a + b).subrange(a.len() + i, a.len() + e) == b.subrange(i, e));
        }
    }
}

/// Replies that come in one stretch are told apart: where the first part ends outside of an
/// object, what follows it is read as if it had come alone.
pub proof fn law_split_concatenated(a: Seq<char>, b: Seq<char>)
    requires
        closed_text(a, 0),
    ensures
        objects(a + b, 0) == objects(a, 0) + objects(b, 0),
{
    lemma_split_from(a, b, 0);
}

proof fn lemma_split_from(a: Seq<char>, b: Seq<char>, i: int)
    requires
        0 <= i <= a.len(),
        closed_text(a, i),
    ensures
        objects(a + b, i) == objects(a, i) + objects(b, 0),
    decreases a.len() - i,
{
    if i >= a.len() {
        lemma_objects_shift(a, b, 0);
        assert(objects(a, i) == Seq::<JsonV>::empty());
        assert(objects(a, i) + objects(b, 0) == objects(b, 0));
    } else {
        assert((a + b)[i] == a[i]);
        if a[i] != '{' {
            lemma_split_from(a, b, i + 1);
        } else {
            lemma_obj_end(a, i, 0, false, false);
            lemma_obj_end_kept(a, b, i, 0, false, false);
            let e = piece_end(a, i);
            assert(piece_end(a + b, i) == e);
            lemma_split_from(a, b, e);
            assert((a + b).subrange(i, e) == a.subrange(i, e));
            match json_parsed(a.subrange(i, e)) {
                Ok(v) => {
                    assert(seq![v] + (objects(a, e) + objects(b, 0)) == (seq![v] + objects(a, e)) + objects(b, 0));
                },
                Err(_) => {},
            }
        }
    }
}

/// A player that was stored is read back as it was, but for its state and volume, which
/// are not stored.
pub proof fn law_player_reads_back(p: PlayerV)
    ensures
        stored_player(player_json(p)) == Some(PlayerV { state: None, volume: None, ..p }),
{
    reveal_strlit("ip");
    reveal_strlit("model");
    reveal_strlit("name");
    reveal_strlit("network");
    reveal_strlit("pid");
    reveal_with_fuel(crate::json::member, 6);
    assert("ip"@.len() == 2 && "model"@.len() == 5 && "name"@.len() == 4 && "network"@.len() == 7 && "pid"@.len() == 3);
}

/// A note of a station gives its title and its address back, and a note of a file its path;
/// the note of a file has no title.
pub proof fn law_notes_read_back(path: Seq<char>, title: Seq<char>, ts: Seq<char>)
    ensures
        noted_title(radio_note(path, title, ts)) == Some(title),
        noted_cast(radio_note(path, title, ts)) == Some((path, ts)),
        noted_cast(cast_note(path, ts)) == Some((path, ts)),
        noted_title(cast_note(path, ts)) is None,
{
    reveal_strlit("path");
    reveal_strlit("title");
    reveal_strlit("ts");
    reveal_with_fuel(crate::json::member, 4);
    assert("path"@.len() == 4 && "title"@.len() == 5 && "ts"@.len() == 2);
}

/// A toggle always changes whether a player plays, and two in a row change it back.
pub proof fn law_toggle_twice(state: Option<Seq<char>>)
    ensures
        toggled(state) == "play"@ <==> state != Some("play"@),
        toggled(Some(toggled(state))) == "play"@ <==> state == Some("play"@),
{
    reveal_strlit("play");
    reveal_strlit("pause");
    assert("play"@.len() == 4 && "pause"@.len() == 5);
}

/// A sweep never probes the own address.
pub proof fn law_sweep_skips_own(base: Seq<char>, own: Seq<char>, n: nat)
    ensures
        !neighbours(base, own, n).contains(own),
    decreases n,
{
    if n > 0 {
        law_sweep_skips_own(base, own, (n - 1) as nat);
    }
}

/// A reply says how it went in its own words: it counts as a success where it reports one, and as
/// one that is being worked on only where its message says so.
pub proof fn law_replies_are_judged(objs: Seq<JsonV>, o: JsonV, h: JsonV)
    ensures
        any_ok(objs.push(o)) <==> any_ok(objs) || any_ok(seq![o]),
        o.get("heos"@) == Some(h) ==> (any_ok(seq![o]) <==> h.str_at("result"@) == Some("success"@)),
        o.get("heos"@) is None ==> !any_ok(seq![o]),
        finals(objs.push(o)) == finals(objs) + finals(seq![o]),
        o.get("heos"@) == Some(h) ==> finals(seq![o]) == if has(h.str_or("message"@, ""@), "command under process"@) {
            0nat
        } else {
            1nat
        },
        all_items(objs.push(o)) == all_items(objs) + all_items(seq![o]),
        o.arr_at("payload"@) matches Some(a) ==> all_items(seq![o]) == a,
        o.arr_at("payload"@) is None ==> all_items(seq![o]).len() == 0,
{
    let all = objs.push(o);
    let one = seq![o];
    assert(all.drop_last() == objs);
    assert(one.drop_last() == Seq::<JsonV>::empty());
    assert(one.last() == o && one[0] == o);
    reveal_with_fuel(finals, 2);
    reveal_with_fuel(all_items, 2);
    assert(all_items(one) =~= payload_items(o));
    if any_ok(objs) {
        let i = choose|i: int| 0 <= i < objs.len() && succeeded(#[trigger] objs[i]);
        assert(succeeded(all[i]));
    }
    if any_ok(one) {
        assert(succeeded(all[objs.len() as int]));
    }
    if any_ok(all) {
        let i = choose|i: int| 0 <= i < all.len() && succeeded(#[trigger] all[i]);
        if i < objs.len() {
            assert(succeeded(objs[i]));
        } else {
            assert(succeeded(one[0]));
        }
    }
}

/// A reply that names a state or a level gives them to the player, and changes nothing else of it.
pub proof fn law_field_is_taken_over(p: PlayerV, value: Seq<char>, n: int)
    requires
        i32::MIN <= n <= i32::MAX,
    ensures
        with_field(p, "state="@ + value) == (PlayerV { state: Some(value), ..p }),
        with_field(p, "level="@ + dec(n)) == (PlayerV { volume: Some(n as i32), ..p }),
        with_field(p, value).name == p.name && with_field(p, value).pid == p.pid && with_field(p, value).ip == p.ip,
{
    reveal_strlit("state=");
    reveal_strlit("state");
    reveal_strlit("level=");
    reveal_strlit("level");
    let a = "state="@ + value;
    let b = "level="@ + dec(n);
    lemma_char_pos(a, '=');
    lemma_char_pos(b, '=');
    assert(a[5] == '=' && b[5] == '=');
    assert(a.take(5) =~= "state"@ && b.take(5) =~= "level"@);
    assert(a.skip(6) =~= value && b.skip(6) =~= dec(n));
    assert("state"@[0] == 's' && "level"@[0] == 'l');
    crate::nums::law_dec_reads_back(n, i32::MIN as int, i32::MAX as int);
}

/// Fields are taken over one by one in their order, and replies in theirs, so that the last word
/// counts; the payload of a reply comes after its message.
pub proof fn law_last_word_counts(p: PlayerV, kvs: Seq<Seq<char>>, kv: Seq<char>, objs: Seq<JsonV>, o: JsonV)
    ensures
        with_fields(p, kvs.push(kv)) == with_field(with_fields(p, kvs), kv),
        with_fields(p, Seq::empty()) == p,
        applied(p, Seq::empty()) == p,
        o.get("payload"@) is None ==> applied(p, objs.push(o)) == with_fields(applied(p, objs), fields(message(o))),
        o.get("payload"@) matches Some(pl) ==> {
            &&& pl.str_at("state"@) is Some ==> applied(p, objs.push(o)).state == pl.str_at("state"@)
            &&& pl.i64_at("level"@) matches Some(n) ==> applied(p, objs.push(o)).volume == Some(n as i32)
        },
        applied(p, objs.push(o)).name == applied(p, objs).name,
        applied(p, objs.push(o)).pid == applied(p, objs).pid,
{
    assert(kvs.push(kv).drop_last() == kvs);
    assert(objs.push(o).drop_last() == objs);
    lemma_fields_keep(applied(p, objs), fields(message(o)));
}

proof fn lemma_fields_keep(p: PlayerV, kvs: Seq<Seq<char>>)
    ensures
        with_fields(p, kvs).name == p.name,
        with_fields(p, kvs).pid == p.pid,
        with_fields(p, kvs).ip == p.ip,
    decreases kvs.len(),
{
    if kvs.len() > 0 {
        lemma_fields_keep(p, kvs.drop_last());
    }
}

/// The speakers are those that the first reply with any lists, each with the name, number, model,
/// address and network that stand with it; one without an address is reached by the speaker that
/// was asked.
pub proof fn law_roster_is_as_listed(o: JsonV, rest: Seq<JsonV>, ip: Seq<char>, i: int)
    ensures
        o.arr_at("payload"@) is None ==> roster_in(seq![o] + rest, ip) == roster_in(rest, ip),
        o.arr_at("payload"@) matches Some(a) ==> {
            &&& a.len() == 0 ==> roster_in(seq![o] + rest, ip) == roster_in(rest, ip)
            &&& a.len() > 0 ==> roster_in(seq![o] + rest, ip).len() == a.len()
            &&& 0 <= i < a.len() ==> {
                let p = roster_in(seq![o] + rest, ip)[i];
                &&& a[i].str_at("name"@) is Some ==> a[i].str_at("name"@) == Some(p.name)
                &&& a[i].i64_at("pid"@) is Some ==> a[i].i64_at("pid"@) == Some(p.pid)
                &&& a[i].str_at("model"@) is Some ==> a[i].str_at("model"@) == Some(p.model)
                &&& a[i].str_at("ip"@) is Some ==> a[i].str_at("ip"@) == Some(p.ip)
                &&& a[i].str_at("ip"@) is None ==> p.ip == ip
                &&& a[i].str_at("network"@) is Some ==> a[i].str_at("network"@) == Some(p.network)
                &&& p.state is None && p.volume is None
            }
        },
{
    assert((seq![o] + rest).skip(1) =~= rest);
    assert((seq![o] + rest)[0] == o);
}

/// The player that a hint means is the first whose name holds it, case aside, or whose number it
/// is; without a hint the one of the office, else one of the house, else the first.
pub proof fn law_hint_means_a_player(players: Seq<PlayerV>, hint: Seq<char>, i: int)
    requires
        0 <= i < players.len(),
    ensures
        (has(lower(players[i].name), lower(hint)) || dec(players[i].pid as int) == lower(hint)) && (forall|j: int|
            0 <= j < i ==> !(has(lower((#[trigger] players[j]).name), lower(hint))) && dec(players[j].pid as int) != lower(hint))
            ==> resolved_player(players, Some(hint)) == Some(players[i]),
        (forall|j: int|
            0 <= j < players.len() ==> !(has(lower((#[trigger] players[j]).name), lower(hint))) && dec(players[j].pid as int)
                != lower(hint)) ==> resolved_player(players, Some(hint)) is None,
        has(lower(players[i].name), "vanguarda office"@) && (forall|j: int|
            0 <= j < i ==> !(has(lower((#[trigger] players[j]).name), "vanguarda office"@))) ==> resolved_player(players, None)
            == Some(players[i]),
        (forall|j: int| 0 <= j < players.len() ==> !(has(lower((#[trigger] players[j]).name), "vanguarda office"@))) && has(
            lower(players[i].name),
            "vanguarda"@,
        ) && (forall|j: int| 0 <= j < i ==> !(has(lower((#[trigger] players[j]).name), "vanguarda"@))) ==> resolved_player(
            players,
            None,
        ) == Some(players[i]),
        (forall|j: int|
            0 <= j < players.len() ==> !(has(lower((#[trigger] players[j]).name), "vanguarda office"@)) && !(has(
                lower(players[j].name),
                "vanguarda"@,
            ))) ==> resolved_player(players, None) == Some(players[0]),
{
    let h = |p: PlayerV| hinted(p, hint);
    let o = |p: PlayerV| is_named(p, "vanguarda office"@);
    let v = |p: PlayerV| is_named(p, "vanguarda"@);
    lemma_first_player(players, h);
    lemma_first_player(players, o);
    lemma_first_player(players, v);
}

proof fn lemma_first_player(players: Seq<PlayerV>, pick: spec_fn(PlayerV) -> bool)
    ensures
        match first_player(players, pick) {
            Some(p) => exists|i: int|
                0 <= i < players.len() && #[trigger] players[i] == p && pick(p) && forall|j: int|
                    0 <= j < i ==> !pick(#[trigger] players[j]),
            None => forall|j: int| 0 <= j < players.len() ==> !pick(#[trigger] players[j]),
        },
    decreases players.len(),
{
    if players.len() > 0 {
        let rest = players.skip(1);
        if pick(players[0]) {
            assert(players[0] == players[0]);
        } else {
            lemma_first_player(rest, pick);
            match first_player(rest, pick) {
                Some(p) => {
                    let i = choose|i: int|
                        0 <= i < rest.len() && #[trigger] rest[i] == p && pick(p) && forall|j: int|
                            0 <= j < i ==> !pick(#[trigger] rest[j]);
                    assert(players[i + 1] == p);
                    assert forall|j: int| 0 <= j < i + 1 implies !pick(#[trigger] players[j]) by {
                        if j > 0 {
                            assert(rest[j - 1] == players[j]);
                        }
                    }
                },
                None => {
                    assert forall|j: int| 0 <= j < players.len() implies !pick(#[trigger] players[j]) by {
                        if j > 0 {
                            assert(rest[j - 1] == players[j]);
                        }
                    }
                },
            }
        }
    }
}

/// The play state is the value that the first reply with one has for it.
pub proof fn law_state_is_read(o: JsonV, rest: Seq<JsonV>, value: Seq<char>, kvs: Seq<Seq<char>>, kv: Seq<char>)
    ensures
        field_in(fields(message(o)), "state"@) is Some ==> state_in(seq![o] + rest) == field_in(fields(message(o)), "state"@),
        field_in(fields(message(o)), "state"@) is None ==> state_in(seq![o] + rest) == state_in(rest),
        field_in(seq!["state="@ + value] + kvs, "state"@) == Some(value),
        !kv.contains('=') ==> field_in(seq![kv] + kvs, "state"@) == field_in(kvs, "state"@),
        state_in(Seq::empty()) is None,
{
    assert((seq![o] + rest).skip(1) =~= rest);
    assert((seq![o] + rest)[0] == o);
    reveal_strlit("state=");
    reveal_strlit("state");
    let a = "state="@ + value;
    lemma_char_pos(a, '=');
    assert(a[5] == '=');
    assert(a.take(5) =~= "state"@);
    assert(a.skip(6) =~= value);
    assert((seq![a] + kvs)[0] == a);
    assert((seq![kv] + kvs)[0] == kv);
    assert((seq![kv] + kvs).skip(1) =~= kvs);
    lemma_char_pos(kv, '=');
}

/// A request about a player names it by its number, behind what is asked.
pub proof fn law_request_names_the_player(verb: Seq<char>, pid: i64, p: PlayerV, n: int)
    ensures
        player_uri(verb, pid) == "heos://player/"@ + verb + "?pid="@ + dec(pid as int),
        p.pid != 0 ==> enrich_uris(p).len() == 2 && enrich_uris(p)[0] == player_uri("get_play_state"@, p.pid) && enrich_uris(
            p,
        )[1] == player_uri("get_volume"@, p.pid),
        p.pid == 0 ==> enrich_uris(p).len() == 0,
        0 <= clamped(n, 0, 100) <= 100,
        0 <= n <= 100 ==> clamped(n, 0, 100) == n,
        n < 0 ==> clamped(n, 0, 100) == 0,
        n > 100 ==> clamped(n, 0, 100) == 100,
{
    reveal_strlit("heos://player/");
    reveal_strlit("get_play_state");
    reveal_strlit("get_volume");
    reveal_strlit("?pid=");
    reveal_strlit("heos://player/get_play_state?pid=");
    reveal_strlit("heos://player/get_volume?pid=");
    assert("heos://player/get_play_state?pid="@ =~= "heos://player/"@ + "get_play_state"@ + "?pid="@);
    assert("heos://player/get_volume?pid="@ =~= "heos://player/"@ + "get_volume"@ + "?pid="@);
}

/// An entry of a speaker's queue has the number, song, artist, album and media identifier that are
/// listed with it.
pub proof fn law_queue_entry_is_as_listed(v: JsonV)
    ensures
        v.i64_at("qid"@) is Some ==> v.i64_at("qid"@) == Some(entry_of(v).qid),
        v.str_at("song"@) is Some ==> v.str_at("song"@) == Some(entry_of(v).song),
        v.str_at("artist"@) is Some ==> v.str_at("artist"@) == Some(entry_of(v).artist),
        v.str_at("album"@) is Some ==> v.str_at("album"@) == Some(entry_of(v).album),
        v.str_at("mid"@) is Some ==> v.str_at("mid"@) == Some(entry_of(v).mid),
{
}

/// A search finds the stations that have a name and a media identifier and are not said to be
/// unplayable, in their order, each by these two.
pub proof fn law_stations_are_as_listed(items: Seq<JsonV>, v: JsonV)
    ensures
        hits_in(items.push(v)) == hits_in(items) + hits_in(seq![v]),
        hits_in(Seq::empty()).len() == 0,
        ({
            let mid = v.str_or("mid"@, ""@);
            let name = v.str_or("name"@, ""@);
            let plays = v.str_at("playable"@) is None || v.str_at("playable"@) == Some("yes"@);
            &&& mid.len() > 0 && name.len() > 0 && plays ==> hits_in(seq![v]) == seq![HitV { mid, name }]
            &&& mid.len() == 0 || name.len() == 0 || !plays ==> hits_in(seq![v]).len() == 0
        }),
{
    assert(items.push(v).drop_last() == items);
    assert(seq![v].drop_last() == Seq::<JsonV>::empty());
    assert(seq![v].last() == v);
    reveal_with_fuel(hits_in, 2);
    assert(hits_in(items.push(v)) =~= hits_in(items) + hits_in(seq![v]));
}

/// The addresses that are tried first are all those of the stored fleet and the two fixed ones,
/// each once.
pub proof fn law_known_addresses_are_tried(cache: Seq<char>, i: int)
    ensures
        known_addresses(cache).contains("192.168.8.184"@),
        known_addresses(cache).contains("192.168.8.185"@),
        known_addresses(cache).no_duplicates(),
        parsed_or_null(cache).arr_at("players"@) matches Some(a) ==> (0 <= i < a.len() && a[i].str_at("ip"@) is Some
            ==> known_addresses(cache).contains(a[i].str_at("ip"@)->0)),
{
    let stored = match parsed_or_null(cache).arr_at("players"@) {
        Some(a) => addresses(a),
        None => Seq::empty(),
    };
    if let Some(a) = parsed_or_null(cache).arr_at("players"@) {
        lemma_addresses(a);
        if 0 <= i < a.len() && a[i].str_at("ip"@) is Some {
            assert(holds(addresses(a), a[i].str_at("ip"@)->0));
        }
    }
    let one = with_new(stored, "192.168.8.184"@);
    lemma_with_new(stored, "192.168.8.184"@);
    lemma_with_new(one, "192.168.8.185"@);
}

proof fn lemma_with_new(list: Seq<Seq<char>>, s: Seq<char>)
    ensures
        with_new(list, s).contains(s),
        list.no_duplicates() ==> with_new(list, s).no_duplicates(),
        forall|x: Seq<char>| #[trigger] list.contains(x) ==> with_new(list, s).contains(x),
{
    let r = with_new(list, s);
    if holds(list, s) {
        let i = choose|i: int| 0 <= i < list.len() && list[i] == s;
        assert(r[i] == s);
    } else {
        assert(r[list.len() as int] == s);
        assert forall|x: Seq<char>| #[trigger] list.contains(x) implies r.contains(x) by {
            let i = list.index_of(x);
            assert(r[i] == x);
        }
    }
}

proof fn lemma_addresses(players: Seq<JsonV>)
    ensures
        addresses(players).no_duplicates(),
        forall|i: int|
            0 <= i < players.len() && (#[trigger] players[i]).str_at("ip"@) is Some ==> addresses(players).contains(
                players[i].str_at("ip"@)->0,
            ),
    decreases players.len(),
{
    if players.len() > 0 {
        let f = players.drop_last();
        lemma_addresses(f);
        if let Some(ip) = players.last().str_at("ip"@) {
            lemma_with_new(addresses(f), ip);
        }
        assert forall|i: int| 0 <= i < players.len() && (#[trigger] players[i]).str_at("ip"@) is Some implies addresses(
            players,
        ).contains(players[i].str_at("ip"@)->0) by {
            if i < f.len() {
                assert(f[i] == players[i]);
                assert(addresses(f).contains(f[i].str_at("ip"@)->0));
            }
        }
    }
}

/// A sweep probes every other address of the network, from the first to the last host.
pub proof fn law_sweep_probes_all(base: Seq<char>, own: Seq<char>, n: nat, k: int)
    requires
        1 <= k <= n,
        base + "."@ + dec(k) != own,
    ensures
        neighbours(base, own, n).contains(base + "."@ + dec(k)),
    decreases n,
{
    let all = neighbours(base, own, n);
    if k == n {
        assert(all.last() == base + "."@ + dec(k));
        assert(all[all.len() - 1] == base + "."@ + dec(k));
    } else {
        law_sweep_probes_all(base, own, (n - 1) as nat, k);
        let front = neighbours(base, own, (n - 1) as nat);
        let i = front.index_of(base + "."@ + dec(k));
        assert(all[i] == front[i]);
    }
}

/// The stored list of players has them all in their order, each with its name, number, model,
/// address and network, and the time that it was stored at; a player without a number is not asked
/// for more.
pub proof fn law_roster_is_stored(players: Seq<PlayerV>, ts: Seq<char>, i: int, p: PlayerV, objs: Seq<JsonV>)
    ensures
        roster_json(players, ts).get("ts"@) == Some(real_v(ts)),
        roster_json(players, ts).arr_at("players"@) is Some,
        roster_json(players, ts).arr_at("players"@)->0.len() == players.len(),
        0 <= i < players.len() ==> stored_player(roster_json(players, ts).arr_at("players"@)->0[i]) == Some(
            PlayerV { state: None, volume: None, ..players[i] },
        ),
        p.pid == 0 ==> enriched(p, objs) == p,
        p.pid != 0 ==> enriched(p, objs) == applied(p, objs),
{
    reveal_strlit("players");
    reveal_strlit("ts");
    reveal_with_fuel(crate::json::member, 3);
    assert("players"@.len() == 7 && "ts"@.len() == 2);
    if 0 <= i < players.len() {
        law_player_reads_back(players[i]);
    }
}

/// The stored list of players is read with its time, if it has one; an entry that is a player is
/// that player, and a list without any is none.
pub proof fn law_stored_roster_is_read(raw: Seq<char>, ts: crate::json::NumV, a: Seq<JsonV>, p: PlayerV)
    ensures
        parsed_or_null(raw).get("ts"@) is None ==> cached_roster(raw) is None,
        parsed_or_null(raw).arr_at("players"@) is None ==> cached_roster(raw) is None,
        parsed_or_null(raw).get("ts"@) == Some(JsonV::Num(ts)) && parsed_or_null(raw).arr_at("players"@) == Some(
            a.push(player_json(p)),
        ) ==> {
            &&& cached_roster(raw) is Some
            &&& cached_roster(raw) matches Some((t, ps)) && t == ts.text && ps == stored_players(a).push(
                PlayerV { state: None, volume: None, ..p },
            )
        },
        parsed_or_null(raw).arr_at("players"@) == Some(Seq::<JsonV>::empty()) ==> cached_roster(raw) is None,
        stored_players(Seq::empty()).len() == 0,
{
    law_player_reads_back(p);
    assert(a.push(player_json(p)).drop_last() =~= a);
}

/// What was cast last is known by its path, whether it was a file or a station.
pub proof fn law_last_cast_is_known(path: Seq<char>, title: Seq<char>, ts: Seq<char>)
    ensures
        noted_path(radio_note(path, title, ts)) == Some(path),
        noted_path(cast_note(path, ts)) == Some(path),
{
    law_notes_read_back(path, title, ts);
}

/// A message is its fields with `&` between them; the value of a field is the one of the first field
/// of that name.
pub proof fn law_fields_of_a_message(msg: Seq<char>, kv: Seq<char>, rest: Seq<Seq<char>>, key: Seq<char>, i: int)
    ensures
        crate::text::join(fields(msg), seq!['&']) == msg,
        0 <= i < fields(msg).len() ==> !fields(msg)[i].contains('&'),
        cut_first(kv, '=') matches Some((k, v)) ==> field_in(seq![kv] + rest, key) == if k == key {
            Some(v)
        } else {
            field_in(rest, key)
        },
        cut_first(kv, '=') is None ==> field_in(seq![kv] + rest, key) == field_in(rest, key),
        field_in(Seq::empty(), key) is None,
{
    crate::text::law_split_joins(msg, '&', |x: char| x == '&');
    assert((seq![kv] + rest).skip(1) =~= rest);
    assert((seq![kv] + rest)[0] == kv);
}

/// What a reply leaves out of a player or of an entry is taken as nothing, or as unknown; a stored
/// entry that is no player is passed over.
pub proof fn law_missing_is_nothing(v: JsonV, ip: Seq<char>, a: Seq<JsonV>, x: Exchange)
    ensures
        v.i64_at("pid"@) is None ==> listed_player(v, ip).pid == 0,
        v.i64_at("qid"@) is None ==> entry_of(v).qid == 0,
        stored_player(v) is None ==> stored_players(a.push(v)) == stored_players(a),
        x.complete() <==> finals(objects(lossy(x.data@), 0)) >= x.expected,
{
    assert(a.push(v).drop_last() =~= a);
}

} // verus!
