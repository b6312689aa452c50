//! The session queue and what playing it asks of mpv.
//!
//! Nothing here talks to mpv or to the disk: an operation changes the [`Session`] and
//! returns, as plain values, what is to be sent, printed and stored.

use vstd::prelude::*;
use crate::config::{ConfigV, SirenConfig};
use crate::json::{
    alike, int_v, json_arr, json_obj, json_parsed, json_pretty, json_real, json_str, jsons, member_of, members,
    names_ascend, numeric, opt_json, orderly, parse_or_null, parsed_or_null, plain, reads_alike, reads_as, real_or_zero,
    real_or_zero_of, real_text, real_v, render_pretty, value_stored, Json, JsonV,
};
use crate::nums::{dec, dec2, dec_i64, dec_u64, dec_usize, int_in, pad, pad_left, parse_usize, two_digits};
use crate::paths::{file_name, file_name_of, file_stem, file_stem_of};
use crate::player::{bare_path, command1, command2, command3, mpv1, mpv2, mpv3, set_bool, set_text, strip_file};
use crate::text::{cat2, cat3, cat4, cat6, copy_list, same, views};

verus! {

// ---- items ----

/// A track of the queue. The duration is kept as the text of a JSON number.
pub struct QueueItem {
    pub path: String,
    pub display: String,
    pub title: String,
    pub artist: String,
    pub duration: String,
}

/// The model of a [`QueueItem`].
#[verifier::ext_equal]
pub struct ItemV {
    pub path: Seq<char>,
    pub display: Seq<char>,
    pub title: Seq<char>,
    pub artist: Seq<char>,
    pub duration: Seq<char>,
}

impl View for QueueItem {
    type V = ItemV;

    open spec fn view(&self) -> ItemV {
        ItemV {
            path: self.path@,
            display: self.display@,
            title: self.title@,
            artist: self.artist@,
            duration: self.duration@,
        }
    }
}

/// The models of a list of items.
pub open spec fn items_view(v: Seq<QueueItem>) -> Seq<ItemV> {
    Seq::new(v.len(), |i: int| v[i]@)
}

/// The paths of a list of items.
pub open spec fn paths_view(v: Seq<ItemV>) -> Seq<Seq<char>> {
    Seq::new(v.len(), |i: int| v[i].path)
}

/// How a path is shown: by its file stem, without `file://`; a path without one as it is.
pub open spec fn display_text(path: Seq<char>) -> Seq<char> {
    let p = bare_path(path);
    match file_stem(p) {
        Some(s) => if s.len() > 0 {
            s
        } else {
            p
        },
        None => p,
    }
}

/// How a path is shown.
pub fn display_of(path: &str) -> (r: String)
    ensures
        r@ == display_text(path@),
{
    let p = strip_file(path);
    match file_stem_of(p.as_str()) {
        Some(s) => {
            if s.as_str().is_empty() {
                p
            } else {
                s
            }
        },
        None => p,
    }
}

/// The last part of a path, or the path itself.
pub open spec fn base_text(p: Seq<char>) -> Seq<char> {
    match file_name(p) {
        Some(n) => n,
        None => p,
    }
}

/// The last part of a path, or the path itself.
pub fn basename(p: &str) -> (r: String)
    ensures
        r@ == base_text(p@),
{
    match file_name_of(p) {
        Some(n) => n,
        None => p.to_owned(),
    }
}

/// The item of a path that nothing else is known of.
pub open spec fn fresh_item(path: Seq<char>) -> ItemV {
    ItemV { path, display: display_text(path), title: ""@, artist: ""@, duration: "0.0"@ }
}

/// The item of a path that nothing else is known of.
pub fn new_item(path: &str) -> (it: QueueItem)
    ensures
        it@ == fresh_item(path@),
{
    QueueItem {
        path: path.to_owned(),
        display: display_of(path),
        title: "".to_owned(),
        artist: "".to_owned(),
        duration: "0.0".to_owned(),
    }
}

/// How an item is shown.
pub open spec fn shown(it: ItemV) -> Seq<char> {
    if it.display.len() == 0 {
        display_text(it.path)
    } else {
        it.display
    }
}

impl QueueItem {
    /// A copy.
    pub fn copy(&self) -> (r: QueueItem)
        ensures
            r@ == self@,
    {
        QueueItem {
            path: self.path.clone(),
            display: self.display.clone(),
            title: self.title.clone(),
            artist: self.artist.clone(),
            duration: self.duration.clone(),
        }
    }

    /// How the item is shown.
    pub fn show(&self) -> (r: String)
        ensures
            r@ == shown(self@),
    {
        if self.display.as_str().is_empty() {
            display_of(self.path.as_str())
        } else {
            self.display.clone()
        }
    }
}

/// A copy of a list of items.
pub fn copy_items(v: &Vec<QueueItem>) -> (r: Vec<QueueItem>)
    ensures
        items_view(r@) == items_view(v@),
{
    let mut r: Vec<QueueItem> = Vec::new();
    for i in 0..v.len()
        invariant
            r.len() == i,
            forall|j: int| 0 <= j < i ==> (#[trigger] r@[j])@ == v@[j]@,
    {
        r.push(v[i].copy());
    }
    assert(items_view(r@) == items_view(v@));
    r
}

/// The paths of a list of items.
pub fn paths_of(v: &Vec<QueueItem>) -> (r: Vec<String>)
    ensures
        views(r@) == paths_view(items_view(v@)),
{
    let mut r: Vec<String> = Vec::new();
    for i in 0..v.len()
        invariant
            r.len() == i,
            forall|j: int| 0 <= j < i ==> (#[trigger] r@[j])@ == v@[j].path@,
    {
        r.push(v[i].path.clone());
    }
    assert(views(r@) == paths_view(items_view(v@)));
    r
}

/// The first position of a path among the items.
pub open spec fn position(items: Seq<ItemV>, path: Seq<char>) -> Option<int>
    decreases items.len(),
{
    if items.len() == 0 {
        None
    } else {
        match position(items.drop_last(), path) {
            Some(i) => Some(i),
            None => if items.last().path == path {
                Some(items.len() - 1)
            } else {
                None
            },
        }
    }
}

/// The first position is one: it holds the path, and none before it does.
pub proof fn lemma_position(items: Seq<ItemV>, path: Seq<char>)
    ensures
        match position(items, path) {
            Some(i) => 0 <= i < items.len() && items[i].path == path && forall|j: int|
                0 <= j < i ==> (#[trigger] items[j]).path != path,
            None => forall|j: int| 0 <= j < items.len() ==> (#[trigger] items[j]).path != path,
        },
    decreases items.len(),
{
    if items.len() > 0 {
        let t = items.drop_last();
        lemma_position(t, path);
        assert forall|j: int| 0 <= j < t.len() implies t[j] == #[trigger] items[j] by {}
    }
}

proof fn lemma_position_is(items: Seq<ItemV>, path: Seq<char>, i: int)
    requires
        0 <= i < items.len(),
        items[i].path == path,
        forall|j: int| 0 <= j < i ==> (#[trigger] items[j]).path != path,
    ensures
        position(items, path) == Some(i),
{
    lemma_position(items, path);
    let p = position(items, path);
    if p is None {
        assert(items[i].path != path);
    } else if p->0 < i {
        assert(items[p->0].path != path);
    } else if p->0 > i {
        assert(items[i].path != path);
    }
}

/// The first position of a path among the items.
pub fn position_of(items: &Vec<QueueItem>, path: &str) -> (r: Option<usize>)
    ensures
        match r {
            Some(i) => i < items.len() && position(items_view(items@), path@) == Some(i as int),
            None => position(items_view(items@), path@) is None,
        },
{
    for i in 0..items.len()
        invariant
            forall|j: int| 0 <= j < i ==> (#[trigger] items_view(items@)[j]).path != path@,
    {
        if same(items[i].path.as_str(), path) {
            proof {
                lemma_position_is(items_view(items@), path@, i as int);
            }
            return Some(i);
        }
        assert(items_view(items@)[i as int].path != path@);
    }
    proof {
        lemma_position(items_view(items@), path@);
    }
    None
}

// ---- the queue ----

/// The tracks that are queued, in order.
pub struct Queue {
    pub items: Vec<QueueItem>,
}

impl View for Queue {
    type V = Seq<ItemV>;

    open spec fn view(&self) -> Seq<ItemV> {
        items_view(self.items@)
    }
}

/// The queue with a path put at its end, or in front.
pub open spec fn with_added(items: Seq<ItemV>, path: Seq<char>, prepend: bool) -> Seq<ItemV> {
    if prepend {
        items.insert(0, fresh_item(path))
    } else {
        items.push(fresh_item(path))
    }
}

/// Whether the `i`th file is there.
pub open spec fn there(exists: Seq<bool>, i: int) -> bool {
    0 <= i < exists.len() && exists[i]
}

/// The items whose files are there, in their order.
pub open spec fn kept(items: Seq<ItemV>, exists: Seq<bool>) -> Seq<ItemV>
    decreases items.len(),
{
    if items.len() == 0 {
        items
    } else {
        let front = kept(items.drop_last(), exists);
        if there(exists, items.len() - 1) {
            front.push(items.last())
        } else {
            front
        }
    }
}

/// The items whose files are not there, in their order.
pub open spec fn missing(items: Seq<ItemV>, exists: Seq<bool>) -> Seq<ItemV>
    decreases items.len(),
{
    if items.len() == 0 {
        items
    } else {
        let front = missing(items.drop_last(), exists);
        if there(exists, items.len() - 1) {
            front
        } else {
            front.push(items.last())
        }
    }
}

/// The queue with the track at `from` moved to `to`.
pub open spec fn moved(items: Seq<ItemV>, from: int, to: int) -> Seq<ItemV> {
    items.remove(from).insert(to, items[from])
}

fn split_missing(items: &Vec<QueueItem>, exists: &Vec<bool>) -> (r: (Vec<QueueItem>, Vec<QueueItem>))
    ensures
        items_view(r.0@) == kept(items_view(items@), exists@),
        items_view(r.1@) == missing(items_view(items@), exists@),
{
    let mut stay: Vec<QueueItem> = Vec::new();
    let mut gone: Vec<QueueItem> = Vec::new();
    let ghost all = items_view(items@);
    proof {
        assert(items_view(stay@) == kept(all.take(0), exists@));
        assert(items_view(gone@) == missing(all.take(0), exists@));
    }
    for i in 0..items.len()
        invariant
            all == items_view(items@),
            items_view(stay@) == kept(all.take(i as int), exists@),
            items_view(gone@) == missing(all.take(i as int), exists@),
    {
        proof {
            assert(all.take(i + 1).drop_last() == all.take(i as int));
            assert(all.take(i + 1).last() == all[i as int]);
        }
        let ghost s0 = items_view(stay@);
        let ghost g0 = items_view(gone@);
        if i < exists.len() && exists[i] {
            stay.push(items[i].copy());
            assert(items_view(stay@) == s0.push(all[i as int]));
        } else {
            gone.push(items[i].copy());
            assert(items_view(gone@) == g0.push(all[i as int]));
        }
    }
    assert(all.take(items.len() as int) == all);
    (stay, gone)
}

/// Keeps the items whose files are there. `exists` says of each whether it is.
pub fn keep_existing(items: &Vec<QueueItem>, exists: &Vec<bool>) -> (r: Vec<QueueItem>)
    ensures
        items_view(r@) == kept(items_view(items@), exists@),
{
    let (stay, _gone) = split_missing(items, exists);
    stay
}

/// The items of a list of removals.
pub open spec fn removal_items(v: Seq<(QueueItem, String)>) -> Seq<ItemV> {
    Seq::new(v.len(), |i: int| v[i].0@)
}

impl Queue {
    /// Adds a path; returns the new length.
    pub fn add(&mut self, path: &str, prepend: bool) -> (n: usize)
        ensures
            final(self)@ == with_added(old(self)@, path@, prepend),
            n == final(self)@.len(),
    {
        let item = new_item(path);
        if prepend {
            self.items.insert(0, item);
        } else {
            self.items.push(item);
        }
        assert(self@ == with_added(old(self)@, path@, prepend));
        self.items.len()
    }

    /// Drops the tracks whose files are missing; returns them, each with the reason.
    /// `exists` says of each track whether its file is there.
    pub fn validate(&mut self, exists: &Vec<bool>) -> (r: Vec<(QueueItem, String)>)
        ensures
            final(self)@ == kept(old(self)@, exists@),
            removal_items(r@) == missing(old(self)@, exists@),
            forall|i: int| 0 <= i < r.len() ==> (#[trigger] r@[i]).1@ == "missing"@,
    {
        let (stay, gone) = split_missing(&self.items, exists);
        self.items = stay;
        let mut r: Vec<(QueueItem, String)> = Vec::new();
        for i in 0..gone.len()
            invariant
                r.len() == i,
                forall|j: int| 0 <= j < i ==> (#[trigger] r@[j]).0@ == gone@[j]@ && r@[j].1@ == "missing"@,
        {
            r.push((gone[i].copy(), "missing".to_owned()));
        }
        assert(removal_items(r@) == items_view(gone@));
        r
    }

    /// Takes the track at `index` out.
    pub fn remove(&mut self, index: usize) -> (r: Option<QueueItem>)
        ensures
            match r {
                Some(it) => index < old(self)@.len() && it@ == old(self)@[index as int] && final(self)@ == old(
                    self,
                )@.remove(index as int),
                None => index >= old(self)@.len() && final(self)@ == old(self)@,
            },
    {
        if index < self.items.len() {
            let it = self.items.remove(index);
            assert(self@ == old(self)@.remove(index as int));
            Some(it)
        } else {
            None
        }
    }

    /// Empties the queue.
    pub fn clear(&mut self)
        ensures
            final(self)@ == Seq::<ItemV>::empty(),
    {
        self.items.clear();
        assert(self@ == Seq::<ItemV>::empty());
    }
}

// ---- storing it ----

/// An item as JSON.
pub open spec fn item_json(it: ItemV) -> JsonV {
    JsonV::Obj(
        seq![
            ("artist"@, JsonV::Str(it.artist)),
            ("display"@, JsonV::Str(it.display)),
            ("duration"@, real_v(it.duration)),
            ("path"@, JsonV::Str(it.path)),
            ("title"@, JsonV::Str(it.title)),
        ],
    )
}

/// A list of items as JSON.
pub open spec fn items_json(items: Seq<ItemV>) -> JsonV {
    JsonV::Arr(Seq::new(items.len(), |i: int| item_json(items[i])))
}

/// An item as JSON.
pub fn encode_item(it: &QueueItem) -> (j: Json)
    ensures
        j@ == item_json(it@),
{
    let mut o: Vec<(String, Json)> = Vec::new();
    o.push(member_of("artist", json_str(it.artist.as_str())));
    o.push(member_of("display", json_str(it.display.as_str())));
    o.push(member_of("duration", json_real(it.duration.as_str())));
    o.push(member_of("path", json_str(it.path.as_str())));
    o.push(member_of("title", json_str(it.title.as_str())));
    assert(members(o@) == item_json(it@)->Obj_0);
    json_obj(o)
}

/// A list of items as JSON.
pub fn encode_items(items: &Vec<QueueItem>) -> (j: Json)
    ensures
        j@ == items_json(items_view(items@)),
{
    let mut a: Vec<Json> = Vec::new();
    for i in 0..items.len()
        invariant
            a.len() == i,
            forall|k: int| 0 <= k < i ==> (#[trigger] a@[k])@ == item_json(items@[k]@),
    {
        a.push(encode_item(&items[i]));
    }
    assert(jsons(a@) == items_json(items_view(items@))->Arr_0);
    json_arr(a)
}

/// The item that a JSON value describes; what it lacks is empty, the duration zero.
pub open spec fn item_of(v: JsonV) -> ItemV {
    ItemV {
        path: v.str_or("path"@, ""@),
        display: v.str_or("display"@, ""@),
        title: v.str_or("title"@, ""@),
        artist: v.str_or("artist"@, ""@),
        duration: real_or_zero(v.get("duration"@)),
    }
}

/// The items of a JSON array that have a path.
pub open spec fn items_in(a: Seq<JsonV>) -> Seq<ItemV>
    decreases a.len(),
{
    if a.len() == 0 {
        Seq::empty()
    } else {
        let front = items_in(a.drop_last());
        if item_of(a.last()).path.len() == 0 {
            front
        } else {
            front.push(item_of(a.last()))
        }
    }
}

/// Whether two items are the same track, however long it is.
pub open spec fn same_track(a: ItemV, b: ItemV) -> bool {
    a.path == b.path && a.display == b.display && a.title == b.title && a.artist == b.artist
}

/// Whether two lists hold the same tracks in the same order.
pub open spec fn same_tracks(a: Seq<ItemV>, b: Seq<ItemV>) -> bool {
    a.len() == b.len() && forall|i: int| 0 <= i < a.len() ==> same_track(#[trigger] a[i], b[i])
}

/// The items that have a path.
pub open spec fn with_paths(items: Seq<ItemV>) -> Seq<ItemV> {
    items.filter(|it: ItemV| it.path.len() > 0)
}

/// Every duration is written as a number is.
pub open spec fn all_numeric(items: Seq<ItemV>) -> bool {
    forall|i: int| 0 <= i < items.len() ==> numeric((#[trigger] items[i]).duration)
}

/// An item that has a path and no known duration.
pub open spec fn fresh(it: ItemV) -> bool {
    it.path.len() > 0 && it.duration == "0.0"@
}

/// All items are fresh.
pub open spec fn all_fresh(items: Seq<ItemV>) -> bool {
    forall|i: int| 0 <= i < items.len() ==> fresh(#[trigger] items[i])
}

/// The items of a JSON array that have a path. Their durations are numeric, and fresh items
/// are read as they were written.
pub fn decode_items(a: &Vec<Json>) -> (r: Vec<QueueItem>)
    ensures
        items_view(r@) == items_in(jsons(a@)),
        all_numeric(items_view(r@)),
        forall|items: Seq<ItemV>|
            JsonV::Arr(jsons(a@)) == #[trigger] items_json(items) && all_fresh(items) ==> items_view(r@) == items,
{
    let mut r: Vec<QueueItem> = Vec::new();
    proof {
        assert(items_view(r@) == items_in(jsons(a@).take(0)));
    }
    for i in 0..a.len()
        invariant
            items_view(r@) == items_in(jsons(a@).take(i as int)),
            all_numeric(items_view(r@)),
            i > 0 && a@[0]@.get("duration"@) == Some(real_v("0.0"@)) && item_of(a@[0]@).path.len() > 0 ==> real_text(
                "0.0"@,
            ) == Some("0.0"@),
    {
        proof {
            assert(jsons(a@).take(i + 1).drop_last() == jsons(a@).take(i as int));
            assert(jsons(a@).take(i + 1).last() == a@[i as int]@);
        }
        let v = &a[i];
        let path = v.str_or("path", "");
        let ghost before = items_view(r@);
        if !path.as_str().is_empty() {
            let it = QueueItem {
                path,
                display: v.str_or("display", ""),
                title: v.str_or("title", ""),
                artist: v.str_or("artist", ""),
                duration: real_or_zero_of(v.get("duration")),
            };
            r.push(it);
            assert(items_view(r@) == before.push(item_of(a@[i as int]@)));
        }
    }
    proof {
        assert(jsons(a@).take(a.len() as int) == jsons(a@));
        assert forall|items: Seq<ItemV>|
            JsonV::Arr(jsons(a@)) == #[trigger] items_json(items) && all_fresh(items) implies items_view(r@)
            == items by {
            assert(items_json(items)->Arr_0 == jsons(a@));
            if items.len() > 0 {
                assert(fresh(items[0]));
                lemma_first_duration(items);
                assert(jsons(a@)[0] == a@[0]@);
            }
            lemma_items_read_back(items);
        }
    }
    r
}

/// The text that the queue is stored as. Its tracks read back from it, and fresh items as
/// they are.
pub fn save_queue(q: &Queue) -> (s: String)
    ensures
        s@ == json_pretty(value_stored(items_json(q@))),
        plain(items_json(q@), 100) ==> reads_as(s@, items_json(q@)),
        all_fresh(q@) ==> reads_as(s@, items_json(q@)),
        all_numeric(q@) ==> same_tracks(stored_items(s@), with_paths(q@)),
{
    let s = render_pretty(&encode_items(&q.items));
    proof {
        if all_fresh(q@) {
            assert forall|i: int| 0 <= i < q@.len() implies (#[trigger] q@[i]).duration == "0.0"@ by {
                assert(fresh(q@[i]));
            }
            lemma_items_plain(q@, 100);
        }
        if all_numeric(q@) {
            lemma_items_orderly(q@, 100);
            law_saved_queue_reads_back(q@, s@);
        }
    }
    s
}

/// The items that a stored queue lists, whether or not their files are there.
pub open spec fn stored_items(raw: Seq<char>) -> Seq<ItemV> {
    match parsed_or_null(raw).as_arr() {
        Some(a) => items_in(a),
        None => Seq::empty(),
    }
}

/// The items that a stored queue lists. Whoever holds the disk then says which are there.
/// Fresh items are read as they were written.
pub fn read_queue(raw: &str) -> (r: Vec<QueueItem>)
    ensures
        items_view(r@) == stored_items(raw@),
        all_numeric(items_view(r@)),
        forall|items: Seq<ItemV>|
            reads_as(raw@, #[trigger] items_json(items)) && all_fresh(items) ==> items_view(r@) == items,
{
    let v = parse_or_null(raw);
    match v.as_arr() {
        Some(a) => decode_items(a),
        None => {
            let r: Vec<QueueItem> = Vec::new();
            assert(items_view(r@) == Seq::<ItemV>::empty());
            r
        },
    }
}

// ---- what is to be done ----

/// Handing a playlist to mpv: if there is a gate, it is sent first, and where it gets no
/// answer the rest is left out.
pub struct Sync {
    pub gate: Option<Json>,
    pub rest: Vec<Json>,
}

/// The model of a [`Sync`].
#[verifier::ext_equal]
pub struct SyncV {
    pub gate: Option<JsonV>,
    pub rest: Seq<JsonV>,
}

impl View for Sync {
    type V = SyncV;

    open spec fn view(&self) -> SyncV {
        SyncV {
            gate: match self.gate {
                Some(j) => Some(j@),
                None => None,
            },
            rest: jsons(self.rest@),
        }
    }
}

/// One thing to be done.
pub enum Step {
    /// Send a command; its answer does not matter.
    Mpv(Json),
    /// Hand a playlist over; whether it worked does not matter.
    Sync(Sync),
    /// Print a line.
    Say(String),
    /// Store the queue.
    Save,
}

/// The model of a [`Step`].
#[verifier::ext_equal]
pub enum StepV {
    Mpv(JsonV),
    Sync(SyncV),
    Say(Seq<char>),
    Save,
}

impl View for Step {
    type V = StepV;

    open spec fn view(&self) -> StepV {
        match self {
            Step::Mpv(j) => StepV::Mpv(j@),
            Step::Sync(s) => StepV::Sync(s@),
            Step::Say(t) => StepV::Say(t@),
            Step::Save => StepV::Save,
        }
    }
}

/// The models of a list of steps.
pub open spec fn steps_view(v: Seq<Step>) -> Seq<StepV> {
    Seq::new(v.len(), |i: int| v[i]@)
}

/// Playing from the queue: what to hand to mpv, and what is then playing.
pub struct PlayPlan {
    pub sync: Sync,
    pub label: String,
}

/// The model of a [`PlayPlan`].
#[verifier::ext_equal]
pub struct PlanV {
    pub sync: SyncV,
    pub label: Seq<char>,
}

impl View for PlayPlan {
    type V = PlanV;

    open spec fn view(&self) -> PlanV {
        PlanV { sync: self.sync@, label: self.label@ }
    }
}

/// How an operation ends.
pub enum End {
    /// With an exit code.
    Code(i32),
    /// By playing: with 0 where mpv took the playlist, else with 1.
    Play(PlayPlan),
}

/// The model of an [`End`].
#[verifier::ext_equal]
pub enum EndV {
    Code(i32),
    Play(PlanV),
}

impl View for End {
    type V = EndV;

    open spec fn view(&self) -> EndV {
        match self {
            End::Code(c) => EndV::Code(*c),
            End::Play(p) => EndV::Play(p@),
        }
    }
}

/// What an operation asks for: the steps in order, then its end.
pub struct Outcome {
    pub steps: Vec<Step>,
    pub end: End,
}

/// The model of an [`Outcome`].
#[verifier::ext_equal]
pub struct OutcomeV {
    pub steps: Seq<StepV>,
    pub end: EndV,
}

impl View for Outcome {
    type V = OutcomeV;

    open spec fn view(&self) -> OutcomeV {
        OutcomeV { steps: steps_view(self.steps@), end: self.end@ }
    }
}

fn no_steps() -> (r: Vec<Step>)
    ensures
        steps_view(r@) == Seq::<StepV>::empty(),
{
    let r: Vec<Step> = Vec::new();
    assert(steps_view(r@) == Seq::<StepV>::empty());
    r
}

fn add_step(steps: &mut Vec<Step>, step: Step)
    ensures
        steps_view(final(steps)@) == steps_view(old(steps)@).push(step@),
{
    steps.push(step);
    assert(steps_view(steps@) == steps_view(old(steps)@).push(step@));
}

/// One line and an exit code.
pub open spec fn said(line: Seq<char>, code: i32) -> OutcomeV {
    OutcomeV { steps: seq![StepV::Say(line)], end: EndV::Code(code) }
}

fn say_and_end(line: String, code: i32) -> (r: Outcome)
    ensures
        r@ == said(line@, code),
{
    let mut steps = no_steps();
    add_step(&mut steps, Step::Say(line));
    assert(steps_view(steps@) == seq![StepV::Say(line@)]);
    Outcome { steps, end: End::Code(code) }
}

/// Nothing but playing.
pub open spec fn played(plan: PlanV) -> OutcomeV {
    OutcomeV { steps: Seq::empty(), end: EndV::Play(plan) }
}

// ---- the session ----

/// What one run of the player remembers: the queue, whether mpv plays from it, and what
/// was last put on.
pub struct Session {
    pub queue: Queue,
    pub driven: bool,
    pub last_label: String,
}

/// The model of a [`Session`].
#[verifier::ext_equal]
pub struct SessionV {
    pub items: Seq<ItemV>,
    pub driven: bool,
    pub label: Seq<char>,
}

impl View for Session {
    type V = SessionV;

    open spec fn view(&self) -> SessionV {
        SessionV { items: self.queue@, driven: self.driven, label: self.last_label@ }
    }
}

impl Session {
    /// A session with an empty queue.
    pub fn new() -> (s: Session)
        ensures
            s@ == (SessionV { items: Seq::empty(), driven: false, label: ""@ }),
    {
        let s = Session { queue: Queue { items: Vec::new() }, driven: false, last_label: "".to_owned() };
        assert(s@.items == Seq::<ItemV>::empty());
        s
    }

    /// The queue has been put on.
    pub fn queue_started(&mut self, label: &str)
        ensures
            final(self)@ == (SessionV { driven: true, label: label@, ..old(self)@ }),
    {
        self.driven = true;
        self.last_label = label.to_owned();
    }

    /// A playlist of its own has been put on.
    pub fn playlist_started(&mut self, label: &str)
        ensures
            final(self)@ == (SessionV { driven: false, label: label@, ..old(self)@ }),
    {
        self.driven = false;
        self.last_label = label.to_owned();
    }
}

/// Takes over a stored queue: the items whose files are there, unless none is.
pub fn ensure_loaded(s: &mut Session, items: &Vec<QueueItem>, exists: &Vec<bool>)
    ensures
        final(s)@ == (SessionV {
            items: if kept(items_view(items@), exists@).len() > 0 {
                kept(items_view(items@), exists@)
            } else {
                old(s)@.items
            },
            ..old(s)@
        }),
{
    let (stay, _gone) = split_missing(items, exists);
    assert(items_view(stay@).len() == stay.len());
    if stay.len() > 0 {
        s.queue.items = stay;
    }
}

// ---- shuffling ----

/// The next state of the generator: three xor-shifts.
pub open spec fn next_random(seed: u64) -> u64 {
    let a = seed ^ (seed << 13u64);
    let b = a ^ (a >> 7u64);
    b ^ (b << 17u64)
}

fn advance(seed: u64) -> (r: u64)
    ensures
        r == next_random(seed),
{
    let a: u64 = seed ^ (seed << 13u64);
    let b: u64 = a ^ (a >> 7u64);
    b ^ (b << 17u64)
}

/// `v` with two elements exchanged.
pub open spec fn exchanged<T>(v: Seq<T>, i: int, j: int) -> Seq<T> {
    v.update(i, v[j]).update(j, v[i])
}

/// `v` after the exchanges of positions `i`, `i - 1`, .. 1, each with a random one not
/// behind it.
pub open spec fn exchanges<T>(v: Seq<T>, seed: u64, i: int) -> Seq<T>
    decreases i,
{
    if i <= 0 {
        v
    } else {
        let r = next_random(seed);
        exchanges(exchanged(v, i, (r as int) % (i + 1)), r, i - 1)
    }
}

/// `v` shuffled from a seed; the seed 0 stands for a fixed other one.
pub open spec fn shuffled<T>(v: Seq<T>, seed: u64) -> Seq<T> {
    exchanges(
        v,
        if seed == 0 {
            0x9e37_79b9_7f4a_7c15u64
        } else {
            seed
        },
        v.len() - 1,
    )
}

fn exchange(v: &mut Vec<String>, i: usize, j: usize)
    requires
        i < old(v).len(),
        j <= i,
    ensures
        views(final(v)@) == exchanged(views(old(v)@), i as int, j as int),
        final(v).len() == old(v).len(),
{
    let a = v[i].clone();
    let b = v[j].clone();
    v.set(i, b);
    v.set(j, a);
    assert(views(v@) == exchanged(views(old(v)@), i as int, j as int));
}

/// Shuffles in place, seeded.
pub fn shuffle_in_place(v: &mut Vec<String>, seed: u64)
    ensures
        views(final(v)@) == shuffled(views(old(v)@), seed),
{
    let mut state: u64 = if seed == 0 {
        0x9e37_79b9_7f4a_7c15
    } else {
        seed
    };
    let ghost first = state;
    let ghost start = views(v@);
    let n: usize = v.len();
    if n == 0 {
        return;
    }
    let mut i: usize = n - 1;
    while i > 0
        invariant
            i < n,
            n == v.len(),
            exchanges(views(v@), state, i as int) == exchanges(start, first, n - 1),
        decreases i,
    {
        state = advance(state);
        let j: usize = (state % (i as u64 + 1)) as usize;
        exchange(v, i, j);
        i = i - 1;
    }
}

// ---- playing ----

/// Loading files: the first in place of what plays, the others behind it.
pub open spec fn load_commands(paths: Seq<Seq<char>>) -> Seq<JsonV> {
    Seq::new(
        paths.len(),
        |i: int|
            mpv3(
                "loadfile"@,
                paths[i],
                JsonV::Str(
                    if i == 0 {
                        "replace"@
                    } else {
                        "append"@
                    },
                ),
            ),
    )
}

/// Unpausing, without video.
pub open spec fn unpause_commands() -> Seq<JsonV> {
    seq![
        mpv3("set_property"@, "pause"@, JsonV::Bool(false)),
        mpv3("set_property"@, "video"@, JsonV::Str("no"@)),
    ]
}

/// What hands a playlist to mpv; an empty one stops it.
pub open spec fn sync_of(paths: Seq<Seq<char>>) -> SyncV {
    if paths.len() == 0 {
        SyncV { gate: None, rest: seq![mpv1("stop"@)] }
    } else {
        SyncV { gate: Some(mpv1("playlist-clear"@)), rest: load_commands(paths) + unpause_commands() }
    }
}

fn push_json(v: &mut Vec<Json>, j: Json)
    ensures
        jsons(final(v)@) == jsons(old(v)@).push(j@),
        final(v).len() == old(v).len() + 1,
{
    v.push(j);
    assert(jsons(v@) == jsons(old(v)@).push(j@));
}

/// What hands a playlist to mpv.
pub fn sync_mpv_playlist(paths: &Vec<String>) -> (s: Sync)
    ensures
        s@ == sync_of(views(paths@)),
{
    let mut rest: Vec<Json> = Vec::new();
    assert(views(paths@).len() == paths.len());
    if paths.len() == 0 {
        rest.push(command1("stop"));
        assert(jsons(rest@) == seq![mpv1("stop"@)]);
        return Sync { gate: None, rest };
    }
    for i in 0..paths.len()
        invariant
            rest.len() == i,
            forall|k: int| 0 <= k < i ==> (#[trigger] jsons(rest@)[k]) == load_commands(views(paths@))[k],
    {
        let how = json_str(if i == 0 { "replace" } else { "append" });
        push_json(&mut rest, command3("loadfile", paths[i].as_str(), how));
    }
    assert(jsons(rest@) == load_commands(views(paths@)));
    push_json(&mut rest, set_bool("pause", false));
    push_json(&mut rest, set_text("video", "no"));
    assert(jsons(rest@) == load_commands(views(paths@)) + unpause_commands());
    Sync { gate: Some(command1("playlist-clear")), rest }
}

/// A playlist of its own, ready to be put on.
pub struct Start {
    pub commands: Vec<Json>,
    pub label: String,
    pub line: String,
}

/// The model of a [`Start`].
#[verifier::ext_equal]
pub struct StartV {
    pub commands: Seq<JsonV>,
    pub label: Seq<char>,
    pub line: Seq<char>,
}

impl View for Start {
    type V = StartV;

    open spec fn view(&self) -> StartV {
        StartV { commands: jsons(self.commands@), label: self.label@, line: self.line@ }
    }
}

/// Putting on a list of files as it stands: the first one, unpausing, then the others.
pub open spec fn start_of(files: Seq<Seq<char>>) -> StartV {
    StartV {
        commands: seq![mpv1("playlist-clear"@), load_commands(files)[0]] + unpause_commands() + load_commands(
            files,
        ).skip(1),
        label: display_text(files[0]),
        line: "Playing "@ + dec(files.len() as int) + " track(s)"@,
    }
}

/// Puts on a list of files, shuffled from a seed if that is wished. Without files there is
/// nothing to play.
pub fn start_playlist(files: &Vec<String>, shuffle: bool, seed: u64) -> (r: Result<Start, String>)
    ensures
        match r {
            Ok(s) => files.len() > 0 && s@ == start_of(
                if shuffle {
                    shuffled(views(files@), seed)
                } else {
                    views(files@)
                },
            ),
            Err(e) => files.len() == 0 && e@ == "No tracks found to play."@,
        },
{
    if files.len() == 0 {
        return Err("No tracks found to play.".to_owned());
    }
    let mut ordered = copy_list(files);
    if shuffle {
        shuffle_in_place(&mut ordered, seed);
        proof {
            law_shuffle_is_permutation(views(files@), seed);
        }
    }
    let ghost v = views(ordered@);
    assert(v.len() == ordered.len() && v.len() == views(files@).len() && views(files@).len() == files.len());
    let mut commands: Vec<Json> = Vec::new();
    push_json(&mut commands, command1("playlist-clear"));
    push_json(&mut commands, command3("loadfile", ordered[0].as_str(), json_str("replace")));
    push_json(&mut commands, set_bool("pause", false));
    push_json(&mut commands, set_text("video", "no"));
    let ghost head = seq![mpv1("playlist-clear"@), load_commands(v)[0]] + unpause_commands();
    assert(jsons(commands@) == head);
    assert(head + load_commands(v).skip(1).take(0) == head);
    for i in 1..ordered.len()
        invariant
            v == views(ordered@),
            jsons(commands@) == head + load_commands(v).skip(1).take(i - 1),
    {
        push_json(&mut commands, command3("loadfile", ordered[i].as_str(), json_str("append")));
        proof {
            let l = load_commands(v).skip(1);
            assert(l.take(i as int) == l.take(i - 1).push(l[i - 1]));
            assert(head + l.take(i as int) == (head + l.take(i - 1)).push(l[i - 1]));
        }
    }
    assert(load_commands(v).skip(1).take(v.len() - 1) == load_commands(v).skip(1));
    Ok(
        Start {
            commands,
            label: display_of(ordered[0].as_str()),
            line: cat3("Playing ", dec_usize(ordered.len()).as_str(), " track(s)"),
        },
    )
}

/// The queue from `index` on; wrapped, with what stands before it behind.
pub open spec fn queue_from(items: Seq<ItemV>, index: int, wrap: bool) -> Seq<ItemV> {
    if wrap {
        items.skip(index) + items.take(index)
    } else {
        items.skip(index)
    }
}

/// Playing the queue from `index`.
pub open spec fn plan_from(items: Seq<ItemV>, index: int, wrap: bool) -> PlanV {
    PlanV { sync: sync_of(paths_view(queue_from(items, index, wrap))), label: shown(items[index]) }
}

/// Plays the queue from `index`; `None` where there is no such track.
pub fn play_queue_from(s: &Session, index: usize, wrap: bool) -> (r: Option<PlayPlan>)
    ensures
        match r {
            Some(p) => index < s@.items.len() && p@ == plan_from(s@.items, index as int, wrap),
            None => index >= s@.items.len(),
        },
{
    let items = &s.queue.items;
    if items.len() == 0 || index >= items.len() {
        return None;
    }
    let mut paths: Vec<String> = Vec::new();
    let ghost want = paths_view(queue_from(s@.items, index as int, wrap));
    for i in index..items.len()
        invariant
            items == &s.queue.items,
            index < items.len(),
            paths.len() == i - index,
            want == paths_view(queue_from(s@.items, index as int, wrap)),
            forall|k: int| 0 <= k < paths.len() ==> (#[trigger] paths@[k])@ == want[k],
    {
        paths.push(items[i].path.clone());
    }
    if wrap {
        for i in 0..index
            invariant
                items == &s.queue.items,
                index < items.len(),
                wrap,
                paths.len() == items.len() - index + i,
                want == paths_view(queue_from(s@.items, index as int, wrap)),
                forall|k: int| 0 <= k < paths.len() ==> (#[trigger] paths@[k])@ == want[k],
        {
            paths.push(items[i].path.clone());
        }
    }
    assert(views(paths@) == want);
    Some(PlayPlan { sync: sync_mpv_playlist(&paths), label: items[index].show() })
}

/// The steps that bring mpv in line with a changed queue, if it plays from it. `cur` is
/// the path that plays.
pub open spec fn resync_steps(s: SessionV, cur: Seq<char>) -> Seq<StepV> {
    if !s.driven {
        Seq::empty()
    } else if s.items.len() == 0 {
        seq![StepV::Mpv(mpv1("playlist-clear"@)), StepV::Mpv(mpv1("stop"@))]
    } else {
        let sync = seq![StepV::Sync(sync_of(paths_view(s.items)))];
        match position(s.items, cur) {
            Some(i) => if i > 0 {
                sync.push(StepV::Mpv(mpv3("set_property"@, "playlist-pos"@, int_v(i))))
            } else {
                sync
            },
            None => sync,
        }
    }
}

/// The session after mpv has been brought in line: an empty queue drives it no more.
pub open spec fn resynced(s: SessionV) -> SessionV {
    SessionV { driven: s.driven && s.items.len() > 0, ..s }
}

/// Brings mpv in line with a changed queue, if it plays from it.
pub fn maybe_resync_queue(s: &mut Session, cur: &str) -> (r: Vec<Step>)
    ensures
        final(s)@ == resynced(old(s)@),
        steps_view(r@) == resync_steps(old(s)@, cur@),
{
    let mut steps = no_steps();
    if !s.driven {
        return steps;
    }
    if s.queue.items.len() == 0 {
        s.driven = false;
        add_step(&mut steps, Step::Mpv(command1("playlist-clear")));
        add_step(&mut steps, Step::Mpv(command1("stop")));
        assert(steps_view(steps@) == resync_steps(old(s)@, cur@));
        return steps;
    }
    add_step(&mut steps, Step::Sync(sync_mpv_playlist(&paths_of(&s.queue.items))));
    match position_of(&s.queue.items, cur) {
        Some(i) => {
            if i > 0 {
                let value = crate::json::json_u64(i as u64);
                add_step(&mut steps, Step::Mpv(command3("set_property", "playlist-pos", value)));
            }
        },
        None => {},
    }
    assert(steps_view(steps@) == resync_steps(old(s)@, cur@));
    steps
}

/// The queue with a path in it: added only where it is not there yet.
pub open spec fn with_path(items: Seq<ItemV>, path: Seq<char>, prepend: bool) -> Seq<ItemV> {
    match position(items, path) {
        Some(_) => items,
        None => with_added(items, path, prepend),
    }
}

/// Plays a path from the queue, adding it first where it is not there.
pub fn queue_add_and_play(s: &mut Session, path: &str, prepend: bool) -> (r: Option<PlayPlan>)
    ensures
        final(s)@ == (SessionV { items: with_path(old(s)@.items, path@, prepend), ..old(s)@ }),
        position(final(s)@.items, path@) is Some,
        match r {
            Some(p) => p@ == plan_from(final(s)@.items, position(final(s)@.items, path@)->0, false),
            None => false,
        },
{
    let at: usize = match position_of(&s.queue.items, path) {
        Some(i) => i,
        None => {
            proof {
                lemma_position(s@.items, path@);
            }
            s.queue.add(path, prepend);
            proof {
                let i: int = if prepend { 0 } else { old(s)@.items.len() as int };
                lemma_position_is(s@.items, path@, i);
            }
            match position_of(&s.queue.items, path) {
                Some(i) => i,
                None => 0,
            }
        },
    };
    play_queue_from(&*s, at, false)
}

/// The track behind `i`, around the end.
pub open spec fn index_after(i: int, n: int) -> int {
    (i + 1) % n
}

/// The track before `i`, around the start.
pub open spec fn index_before(i: int, n: int) -> int {
    (i + n - 1) % n
}

fn after_index(i: usize, n: usize) -> (r: usize)
    requires
        i < n,
    ensures
        r == index_after(i as int, n as int),
        r < n,
{
    let r: usize = if i + 1 == n {
        0
    } else {
        i + 1
    };
    assert(r == index_after(i as int, n as int)) by (nonlinear_arith)
        requires
            i < n,
            r == if i + 1 == n {
                0int
            } else {
                i + 1
            },
    {
        if i + 1 == n {
            vstd::arithmetic::div_mod::lemma_mod_self_0(n as int);
        } else {
            vstd::arithmetic::div_mod::lemma_small_mod((i + 1) as nat, n as nat);
        }
    }
    r
}

fn before_index(i: usize, n: usize) -> (r: usize)
    requires
        i < n,
    ensures
        r == index_before(i as int, n as int),
        r < n,
{
    if i == 0 {
        proof {
            vstd::arithmetic::div_mod::lemma_small_mod((n - 1) as nat, n as nat);
        }
        n - 1
    } else {
        proof {
            vstd::arithmetic::div_mod::lemma_mod_add_multiples_vanish((i - 1) as int, n as int);
            vstd::arithmetic::div_mod::lemma_small_mod((i - 1) as nat, n as nat);
        }
        i - 1
    }
}

/// Going on to another track: within the queue where the current path is in it, else
/// by the command.
pub open spec fn skip_outcome(s: SessionV, cur: Seq<char>, forward: bool) -> OutcomeV {
    let command = OutcomeV {
        steps: seq![
            StepV::Mpv(
                mpv1(
                    if forward {
                        "playlist-next"@
                    } else {
                        "playlist-prev"@
                    },
                ),
            ),
        ],
        end: EndV::Code(0),
    };
    if cur.len() == 0 {
        command
    } else {
        match position(s.items, cur) {
            Some(i) => played(
                plan_from(
                    s.items,
                    if forward {
                        index_after(i, s.items.len() as int)
                    } else {
                        index_before(i, s.items.len() as int)
                    },
                    true,
                ),
            ),
            None => command,
        }
    }
}

fn play_or_code(plan: Option<PlayPlan>) -> (r: Outcome)
    ensures
        r@ == match plan {
            Some(p) => played(p@),
            None => OutcomeV { steps: Seq::empty(), end: EndV::Code(1) },
        },
{
    let end = match plan {
        Some(p) => End::Play(p),
        None => End::Code(1),
    };
    Outcome { steps: no_steps(), end }
}

fn skip_track(s: &Session, cur: &str, forward: bool) -> (r: Outcome)
    ensures
        r@ == skip_outcome(s@, cur@, forward),
{
    if s.queue.items.len() > 0 && !cur.is_empty() {
        match position_of(&s.queue.items, cur) {
            Some(i) => {
                let n: usize = s.queue.items.len();
                let at: usize = if forward {
                    after_index(i, n)
                } else {
                    before_index(i, n)
                };
                return play_or_code(play_queue_from(s, at, true));
            },
            None => {},
        }
    } else {
        proof {
            lemma_position(s@.items, cur@);
        }
    }
    let mut steps = no_steps();
    add_step(&mut steps, Step::Mpv(command1(if forward { "playlist-next" } else { "playlist-prev" })));
    let r = Outcome { steps, end: End::Code(0) };
    assert(r@.steps == skip_outcome(s@, cur@, forward).steps);
    r
}

/// Goes on to the next track. `cur` is the path that plays.
pub fn cmd_next(s: &Session, cur: &str) -> (r: Outcome)
    ensures
        r@ == skip_outcome(s@, cur@, true),
{
    skip_track(s, cur, true)
}

/// Goes back to the previous track. `cur` is the path that plays.
pub fn cmd_prev(s: &Session, cur: &str) -> (r: Outcome)
    ensures
        r@ == skip_outcome(s@, cur@, false),
{
    skip_track(s, cur, false)
}

/// Stops: mpv plays from the queue no more. Returns the command.
pub fn cmd_stop(s: &mut Session) -> (j: Json)
    ensures
        final(s)@ == (SessionV { driven: false, label: ""@, ..old(s)@ }),
        j@ == mpv1("stop"@),
{
    s.driven = false;
    s.last_label = "".to_owned();
    command1("stop")
}

/// Pauses or unpauses. Returns the command.
pub fn cmd_pause() -> (j: Json)
    ensures
        j@ == mpv2("cycle"@, "pause"@),
{
    command2("cycle", "pause")
}

/// What plays: the current path as it is shown, else what was last put on.
pub open spec fn label_now(s: SessionV, cur: Seq<char>) -> Seq<char> {
    if cur.len() > 0 {
        display_text(cur)
    } else {
        s.label
    }
}

/// What plays. `cur` is the path that plays.
pub fn now_label(s: &Session, cur: &str) -> (r: String)
    ensures
        r@ == label_now(s@, cur@),
{
    if !cur.is_empty() {
        return display_of(cur);
    }
    s.last_label.clone()
}

/// Seconds as minutes and seconds; what is negative counts as zero.
pub open spec fn clock(secs: int) -> Seq<char> {
    let s = if secs < 0 {
        0
    } else {
        secs
    };
    dec(s / 60) + ":"@ + two_digits(s % 60)
}

/// Seconds as minutes and seconds.
pub fn fmt_clock(secs: i64) -> (r: String)
    ensures
        r@ == clock(secs as int),
{
    let s: u64 = if secs < 0 {
        0
    } else {
        secs as u64
    };
    cat3(dec_u64(s / 60).as_str(), ":", dec2(s % 60).as_str())
}

/// Whether a loop property is on.
pub open spec fn looping(v: Option<JsonV>) -> bool {
    match v {
        Some(j) => match j.as_str() {
            Some(s) => s == "inf"@ || s == "yes"@ || s == "always"@,
            None => match j.as_bool() {
                Some(b) => b,
                None => false,
            },
        },
        None => false,
    }
}

fn is_looping(v: Option<&Json>) -> (b: bool)
    ensures
        b == looping(opt_json(v)),
{
    match v {
        Some(j) => {
            match j.as_str() {
                Some(s) => same(s, "inf") || same(s, "yes") || same(s, "always"),
                None => match j.as_bool() {
                    Some(b) => b,
                    None => false,
                },
            }
        },
        None => false,
    }
}

/// How the repeat mode is shown.
pub open spec fn repeat_text(loop_playlist: Option<JsonV>, loop_file: Option<JsonV>) -> Seq<char> {
    if looping(loop_playlist) {
        "all"@
    } else if looping(loop_file) {
        "track"@
    } else {
        "off"@
    }
}

/// How the repeat mode is shown, from the two loop properties.
pub fn get_repeat(loop_playlist: Option<&Json>, loop_file: Option<&Json>) -> (r: String)
    ensures
        r@ == repeat_text(opt_json(loop_playlist), opt_json(loop_file)),
{
    if is_looping(loop_playlist) {
        return "all".to_owned();
    }
    if is_looping(loop_file) {
        return "track".to_owned();
    }
    "off".to_owned()
}

/// What mpv reports of itself.
pub struct MpvState {
    pub paused: bool,
    pub path: String,
    /// The position in whole seconds.
    pub pos: i64,
    /// The length in whole seconds, where there is one.
    pub dur: Option<i64>,
    pub volume: Option<i64>,
    pub shuffle: bool,
    pub repeat: String,
}

/// The lines of the status of a running mpv.
pub open spec fn status_text(c: ConfigV, s: SessionV, m: MpvState) -> Seq<Seq<char>> {
    let label = label_now(s, m.path@);
    let head = seq![
        "status: "@ + (if m.paused { "paused"@ } else { "playing"@ }),
        "track:  "@ + (if label.len() == 0 { "— silence —"@ } else { label }),
    ];
    let time = match m.dur {
        Some(d) => seq!["time:   "@ + clock(m.pos as int) + " / "@ + clock(d as int)],
        None => Seq::empty(),
    };
    let vol = match m.volume {
        Some(v) => v as int,
        None => c.default_volume,
    };
    let tail = seq![
        "vol:    "@ + dec(vol) + "%"@,
        "mode:   shuffle "@ + (if m.shuffle { "on"@ } else { "off"@ }) + " · repeat "@ + m.repeat@,
    ];
    head + time + tail
}

/// The lines of the status; `None` for an mpv that does not run.
pub fn status_lines(cfg: &SirenConfig, s: &Session, state: Option<&MpvState>) -> (r: Vec<String>)
    ensures
        views(r@) == match state {
            Some(m) => status_text(cfg@, s@, *m),
            None => seq!["status: idle (no mpv)"@],
        },
{
    let mut lines: Vec<String> = Vec::new();
    let m = match state {
        Some(m) => m,
        None => {
            lines.push("status: idle (no mpv)".to_owned());
            assert(views(lines@) == seq!["status: idle (no mpv)"@]);
            return lines;
        },
    };
    lines.push(cat2("status: ", if m.paused { "paused" } else { "playing" }));
    let label = now_label(s, m.path.as_str());
    if label.as_str().is_empty() {
        lines.push(cat2("track:  ", "— silence —"));
    } else {
        lines.push(cat2("track:  ", label.as_str()));
    }
    match m.dur {
        Some(d) => {
            lines.push(cat4("time:   ", fmt_clock(m.pos).as_str(), " / ", fmt_clock(d).as_str()));
        },
        None => {},
    }
    let vol: i64 = match m.volume {
        Some(v) => v,
        None => cfg.default_volume as i64,
    };
    lines.push(cat3("vol:    ", dec_i64(vol).as_str(), "%"));
    lines.push(cat4("mode:   shuffle ", if m.shuffle { "on" } else { "off" }, " · repeat ", m.repeat.as_str()));
    assert(views(lines@) == status_text(cfg@, s@, *m));
    lines
}

// ---- the queue commands ----

/// The queue with paths added one after the other.
pub open spec fn with_all(items: Seq<ItemV>, paths: Seq<Seq<char>>, prepend: bool) -> Seq<ItemV>
    decreases paths.len(),
{
    if paths.len() == 0 {
        items
    } else {
        with_added(with_all(items, paths.drop_last(), prepend), paths.last(), prepend)
    }
}

/// The session with other items.
pub open spec fn with_items(s: SessionV, items: Seq<ItemV>) -> SessionV {
    SessionV { items, ..s }
}

/// Adds the tracks that a query found. `cur` is the path that plays.
pub fn cli_add(s: &mut Session, files: &Vec<String>, prepend: bool, cur: &str) -> (r: Outcome)
    ensures
        files.len() == 0 ==> r@ == said("No tracks found matching query."@, 1) && final(s)@ == old(s)@,
        files.len() > 0 ==> {
            let now = with_items(old(s)@, with_all(old(s)@.items, views(files@), prepend));
            &&& final(s)@ == resynced(now)
            &&& r@.steps == resync_steps(now, cur@).push(
                StepV::Say(
                    (if prepend { "Prepended"@ } else { "Added"@ }) + " "@ + dec(files.len() as int)
                        + " track(s) to queue."@,
                ),
            ).push(StepV::Save)
            &&& r@.end == EndV::Code(0)
        },
{
    if files.len() == 0 {
        return say_and_end("No tracks found matching query.".to_owned(), 1);
    }
    for i in 0..files.len()
        invariant
            s@ == with_items(old(s)@, with_all(old(s)@.items, views(files@).take(i as int), prepend)),
            s@.items.len() == old(s)@.items.len() + i,
    {
        s.queue.add(files[i].as_str(), prepend);
        proof {
            assert(views(files@).take(i + 1).drop_last() == views(files@).take(i as int));
            assert(views(files@).take(i + 1).last() == files@[i as int]@);
        }
    }
    assert(views(files@).take(files.len() as int) == views(files@));
    let mut steps = maybe_resync_queue(s, cur);
    let line = cat4(
        if prepend { "Prepended" } else { "Added" },
        " ",
        dec_usize(files.len()).as_str(),
        " track(s) to queue.",
    );
    add_step(&mut steps, Step::Say(line));
    add_step(&mut steps, Step::Save);
    Outcome { steps, end: End::Code(0) }
}

/// The line of the `i`th track in the list of the queue.
pub open spec fn list_line(i: int, it: ItemV) -> Seq<char> {
    "  "@ + (if i == 0 { "▶"@ } else { " "@ }) + " "@ + pad(dec(i + 1), 3) + ". "@ + shown(it)
}

/// The lines that list the queue.
pub open spec fn list_text(items: Seq<ItemV>) -> Seq<Seq<char>> {
    if items.len() == 0 {
        seq!["(queue empty)"@]
    } else {
        Seq::new(items.len(), |i: int| list_line(i, items[i]))
    }
}

/// The lines that list the queue.
pub fn cli_list(s: &Session) -> (r: Vec<String>)
    ensures
        views(r@) == list_text(s@.items),
{
    let items = &s.queue.items;
    let mut r: Vec<String> = Vec::new();
    assert(s@.items.len() == items.len());
    if items.len() == 0 {
        r.push("(queue empty)".to_owned());
        assert(views(r@) == seq!["(queue empty)"@]);
        return r;
    }
    for i in 0..items.len()
        invariant
            items == &s.queue.items,
            r.len() == i,
            forall|k: int| 0 <= k < i ==> (#[trigger] r@[k])@ == list_line(k, s@.items[k]),
    {
        let number = pad_left(dec_u64(i as u64 + 1).as_str(), 3);
        r.push(
            cat6("  ", if i == 0 { "▶" } else { " " }, " ", number.as_str(), ". ", items[i].show().as_str()),
        );
    }
    assert(views(r@) == list_text(s@.items));
    r
}

/// The steps that report the missing tracks.
pub open spec fn removed_steps(gone: Seq<ItemV>) -> Seq<StepV> {
    Seq::new(gone.len(), |i: int| StepV::Say("Removed missing: "@ + base_text(gone[i].path)))
}

/// Playing the queue from its start, after dropping what is missing.
pub open spec fn play_outcome(s: SessionV, exists: Seq<bool>, cur: Seq<char>) -> OutcomeV {
    let gone = missing(s.items, exists);
    let now = with_items(s, kept(s.items, exists));
    let cleaned = if gone.len() > 0 {
        removed_steps(gone) + resync_steps(now, cur).push(StepV::Save)
    } else {
        Seq::empty()
    };
    if s.items.len() == 0 {
        said("Queue empty."@, 1)
    } else if now.items.len() == 0 {
        OutcomeV { steps: cleaned.push(StepV::Say("Queue empty after validation."@)), end: EndV::Code(1) }
    } else {
        OutcomeV { steps: cleaned, end: EndV::Play(plan_from(now.items, 0, false)) }
    }
}

/// Plays the queue from its start, after dropping what is missing. `exists` says of each
/// track whether its file is there, `cur` is the path that plays.
pub fn cli_play(s: &mut Session, exists: &Vec<bool>, cur: &str) -> (r: Outcome)
    ensures
        r@ == play_outcome(old(s)@, exists@, cur@),
        final(s)@ == {
            let now = with_items(old(s)@, kept(old(s)@.items, exists@));
            if missing(old(s)@.items, exists@).len() > 0 {
                resynced(now)
            } else {
                now
            }
        },
{
    assert(s@.items.len() == s.queue.items.len());
    if s.queue.items.len() == 0 {
        assert(kept(s@.items, exists@) == s@.items);
        return say_and_end("Queue empty.".to_owned(), 1);
    }
    let (stay, gone) = split_missing(&s.queue.items, exists);
    s.queue.items = stay;
    let ghost now = s@;
    assert(items_view(gone@).len() == gone.len());
    let mut steps = no_steps();
    for i in 0..gone.len()
        invariant
            steps_view(steps@) == removed_steps(items_view(gone@)).take(i as int),
    {
        add_step(&mut steps, Step::Say(cat2("Removed missing: ", basename(gone[i].path.as_str()).as_str())));
        proof {
            let all = removed_steps(items_view(gone@));
            assert(all.take(i + 1) == all.take(i as int).push(all[i as int]));
        }
    }
    proof {
        let all = removed_steps(items_view(gone@));
        assert(all.take(gone.len() as int) == all);
    }
    if gone.len() > 0 {
        let mut more = maybe_resync_queue(s, cur);
        add_step(&mut more, Step::Save);
        let ghost before = steps_view(steps@);
        let ghost behind = steps_view(more@);
        steps.append(&mut more);
        assert(steps_view(steps@) == before + behind);
    } else {
        assert(steps_view(steps@) == Seq::<StepV>::empty());
    }
    assert(s@.items.len() == s.queue.items.len());
    match play_queue_from(&*s, 0, false) {
        Some(p) => Outcome { steps, end: End::Play(p) },
        None => {
            add_step(&mut steps, Step::Say("Queue empty after validation.".to_owned()));
            Outcome { steps, end: End::Code(1) }
        },
    }
}

/// Playing the track behind the current one; from the start where the current one is not
/// queued.
pub open spec fn queue_next_outcome(s: SessionV, cur: Seq<char>) -> OutcomeV {
    if s.items.len() == 0 {
        said("Queue empty."@, 1)
    } else {
        match position(s.items, cur) {
            Some(i) => played(plan_from(s.items, index_after(i, s.items.len() as int), true)),
            None => played(plan_from(s.items, 0, false)),
        }
    }
}

/// Plays the track behind the current one. `cur` is the path that plays.
pub fn cli_queue_next(s: &Session, cur: &str) -> (r: Outcome)
    ensures
        r@ == queue_next_outcome(s@, cur@),
{
    assert(s@.items.len() == s.queue.items.len());
    if s.queue.items.len() == 0 {
        return say_and_end("Queue empty.".to_owned(), 1);
    }
    match position_of(&s.queue.items, cur) {
        Some(i) => {
            let at: usize = after_index(i, s.queue.items.len());
            play_or_code(play_queue_from(s, at, true))
        },
        None => play_or_code(play_queue_from(s, 0, false)),
    }
}

/// A position as a user writes it, counted from 1.
pub open spec fn user_index(s: Seq<char>) -> Option<int> {
    match int_in(s, 0, usize::MAX as int) {
        Some(n) => if n >= 1 {
            Some(n - 1)
        } else {
            None
        },
        None => None,
    }
}

/// A position as a user writes it, counted from 1.
pub fn read_index(s: &str) -> (r: Option<usize>)
    ensures
        match r {
            Some(i) => user_index(s@) == Some(i as int),
            None => user_index(s@) is None,
        },
{
    match parse_usize(s) {
        Some(n) => {
            if n >= 1 {
                Some(n - 1)
            } else {
                None
            }
        },
        None => None,
    }
}

/// What a change of the queue asks for: mpv is brought in line, the queue stored, a line
/// printed.
pub open spec fn changed(now: SessionV, cur: Seq<char>, line: Seq<char>) -> OutcomeV {
    OutcomeV {
        steps: resync_steps(now, cur).push(StepV::Save).push(StepV::Say(line)),
        end: EndV::Code(0),
    }
}

fn finish_change(s: &mut Session, cur: &str, line: String) -> (r: Outcome)
    ensures
        final(s)@ == resynced(old(s)@),
        r@ == changed(old(s)@, cur@, line@),
{
    let mut steps = maybe_resync_queue(s, cur);
    add_step(&mut steps, Step::Save);
    add_step(&mut steps, Step::Say(line));
    Outcome { steps, end: End::Code(0) }
}

/// Removes a track by its position, counted from 1. `cur` is the path that plays.
pub fn cli_remove(s: &mut Session, index_1based: &str, cur: &str) -> (r: Outcome)
    ensures
        match user_index(index_1based@) {
            None => r@ == said("Usage: siren queue remove <index>"@, 1) && final(s)@ == old(s)@,
            Some(i) => if i >= old(s)@.items.len() {
                r@ == said("Invalid index."@, 1) && final(s)@ == old(s)@
            } else {
                let now = with_items(old(s)@, old(s)@.items.remove(i));
                final(s)@ == resynced(now) && r@ == changed(now, cur@, "Removed: "@ + shown(old(s)@.items[i]))
            },
        },
{
    match read_index(index_1based) {
        Some(n) => {
            match s.queue.remove(n) {
                Some(it) => finish_change(s, cur, cat2("Removed: ", it.show().as_str())),
                None => say_and_end("Invalid index.".to_owned(), 1),
            }
        },
        None => say_and_end("Usage: siren queue remove <index>".to_owned(), 1),
    }
}

/// Moves a track to another position, both counted from 1. `cur` is the path that plays.
pub fn cli_move(s: &mut Session, a: &str, b: &str, cur: &str) -> (r: Outcome)
    ensures
        match (user_index(a@), user_index(b@)) {
            (Some(f), Some(t)) => if f < old(s)@.items.len() && t < old(s)@.items.len() {
                let now = with_items(old(s)@, moved(old(s)@.items, f, t));
                final(s)@ == resynced(now) && r@ == changed(now, cur@, "Moved."@)
            } else {
                r@ == said("Invalid indices."@, 1) && final(s)@ == old(s)@
            },
            _ => r@ == said("Usage: siren queue move <from> <to>"@, 1) && final(s)@ == old(s)@,
        },
{
    match (read_index(a), read_index(b)) {
        (Some(f), Some(t)) => {
            assert(s@.items.len() == s.queue.items.len());
            if f < s.queue.items.len() && t < s.queue.items.len() {
                let it = s.queue.items.remove(f);
                s.queue.items.insert(t, it);
                assert(s@.items == moved(old(s)@.items, f as int, t as int));
                finish_change(s, cur, "Moved.".to_owned())
            } else {
                say_and_end("Invalid indices.".to_owned(), 1)
            }
        },
        _ => say_and_end("Usage: siren queue move <from> <to>".to_owned(), 1),
    }
}

/// Empties the queue. `cur` is the path that plays.
pub fn cli_clear(s: &mut Session, cur: &str) -> (r: Outcome)
    ensures
        final(s)@ == (SessionV { items: Seq::empty(), driven: false, ..old(s)@ }),
        r@ == changed(with_items(old(s)@, Seq::empty()), cur@, "Queue cleared."@),
{
    s.queue.clear();
    finish_change(s, cur, "Queue cleared.".to_owned())
}

/// Replaces the whole queue; it is to be stored.
pub fn replace(s: &mut Session, items: Vec<QueueItem>) -> (r: Step)
    ensures
        final(s)@ == with_items(old(s)@, items_view(items@)),
        r@ == StepV::Save,
{
    s.queue.items = items;
    Step::Save
}

/// A copy of the queue.
pub fn snapshot(s: &Session) -> (r: Vec<QueueItem>)
    ensures
        items_view(r@) == s@.items,
{
    copy_items(&s.queue.items)
}

/// Adds a path, and nothing more.
pub fn cli_add_path(s: &mut Session, path: &str, prepend: bool)
    ensures
        final(s)@ == with_items(old(s)@, with_added(old(s)@.items, path@, prepend)),
{
    s.queue.add(path, prepend);
}

/// Empties the queue, and nothing more.
pub fn cli_clear_quiet(s: &mut Session)
    ensures
        final(s)@ == with_items(old(s)@, Seq::empty()),
{
    s.queue.clear();
}

// ---- laws ----

proof fn lemma_exchanges<T>(v: Seq<T>, seed: u64, i: int)
    requires
        i < v.len(),
    ensures
        exchanges(v, seed, i).to_multiset() == v.to_multiset(),
        exchanges(v, seed, i).len() == v.len(),
    decreases i,
{
    if i > 0 {
        let r = next_random(seed);
        let j = (r as int) % (i + 1);
        assert(0 <= j <= i) by (nonlinear_arith)
            requires
                i > 0,
                j == (r as int) % (i + 1),
        ;
        let w = exchanged(v, i, j);
        assert(w.to_multiset() == v.to_multiset()) by {
            vstd::seq_lib::to_multiset_update(v, i, v[j]);
            vstd::seq_lib::to_multiset_update(v.update(i, v[j]), j, v[i]);
            let m = v.to_multiset();
            if i == j {
                assert(w == v);
            } else {
                assert(v.update(i, v[j])[j] == v[j]);
                broadcast use vstd::multiset::group_multiset_axioms;
                broadcast use vstd::seq_lib::group_to_multiset_ensures;
                assert(v.contains(v[i]));
                assert(v.contains(v[j]));
                assert(m.insert(v[j]).remove(v[i]).insert(v[i]).remove(v[j]) == m);
            }
        }
        lemma_exchanges(w, r, i - 1);
    }
}

/// Shuffling neither drops nor adds a track, whatever the seed.
pub proof fn law_shuffle_is_permutation<T>(v: Seq<T>, seed: u64)
    ensures
        shuffled(v, seed).to_multiset() == v.to_multiset(),
        shuffled(v, seed).len() == v.len(),
{
    lemma_exchanges(
        v,
        if seed == 0 {
            0x9e37_79b9_7f4a_7c15u64
        } else {
            seed
        },
        v.len() - 1,
    );
}

/// Going on and then back, or back and then on, ends where it began.
pub proof fn law_next_prev(i: int, n: int)
    requires
        0 <= i < n,
    ensures
        index_before(index_after(i, n), n) == i,
        index_after(index_before(i, n), n) == i,
        0 <= index_after(i, n) < n,
        0 <= index_before(i, n) < n,
{
    use_small_mod(n);
    if i + 1 < n {
        vstd::arithmetic::div_mod::lemma_small_mod((i + 1) as nat, n as nat);
        vstd::arithmetic::div_mod::lemma_mod_add_multiples_vanish(i, n);
        vstd::arithmetic::div_mod::lemma_small_mod(i as nat, n as nat);
    } else {
        vstd::arithmetic::div_mod::lemma_mod_self_0(n);
    }
    if i > 0 {
        vstd::arithmetic::div_mod::lemma_mod_add_multiples_vanish(i - 1, n);
        vstd::arithmetic::div_mod::lemma_small_mod((i - 1) as nat, n as nat);
        vstd::arithmetic::div_mod::lemma_small_mod(i as nat, n as nat);
    } else {
        vstd::arithmetic::div_mod::lemma_mod_self_0(n);
    }
}

proof fn use_small_mod(n: int)
    requires
        n > 0,
    ensures
        (n - 1) % n == n - 1,
        0int % n == 0,
{
    vstd::arithmetic::div_mod::lemma_small_mod((n - 1) as nat, n as nat);
    vstd::arithmetic::div_mod::lemma_small_mod(0, n as nat);
}

/// The queue played around its end holds every track of the queue, and begins with the
/// chosen one.
pub proof fn law_wrap_rotates(items: Seq<ItemV>, index: int)
    requires
        0 <= index < items.len(),
    ensures
        queue_from(items, index, true).len() == items.len(),
        queue_from(items, index, true)[0] == items[index],
        queue_from(items, index, true).to_multiset() == items.to_multiset(),
{
    vstd::seq_lib::lemma_multiset_commutative(items.skip(index), items.take(index));
    vstd::seq_lib::lemma_multiset_commutative(items.take(index), items.skip(index));
    assert(items.take(index) + items.skip(index) == items);
}

/// A track put in front, and taken out again, leaves the queue as it was.
pub proof fn law_add_remove(items: Seq<ItemV>, path: Seq<char>)
    ensures
        with_added(items, path, true).remove(0) == items,
        with_added(items, path, true)[0] == fresh_item(path),
        with_added(items, path, false).remove(items.len() as int) == items,
        with_added(items, path, false).last() == fresh_item(path),
{
    assert(with_added(items, path, true).remove(0) == items);
    assert(with_added(items, path, false).remove(items.len() as int) == items);
}

/// A track moved, and moved back, leaves the queue as it was; moving drops nothing.
pub proof fn law_move_back(items: Seq<ItemV>, from: int, to: int)
    requires
        0 <= from < items.len(),
        0 <= to < items.len(),
    ensures
        moved(moved(items, from, to), to, from) == items,
        moved(items, from, to)[to] == items[from],
        moved(items, from, to).len() == items.len(),
{
    assert(moved(items, from, to).remove(to) == items.remove(from));
    assert(moved(moved(items, from, to), to, from) == items);
}

/// Dropping what is missing divides the queue: every track either stays or is reported.
pub proof fn law_validate_divides(items: Seq<ItemV>, exists: Seq<bool>)
    ensures
        kept(items, exists).to_multiset().add(missing(items, exists).to_multiset()) == items.to_multiset(),
        kept(items, exists).len() + missing(items, exists).len() == items.len(),
    decreases items.len(),
{
    broadcast use vstd::multiset::group_multiset_axioms;
    broadcast use vstd::seq_lib::group_to_multiset_ensures;

    if items.len() > 0 {
        let t = items.drop_last();
        law_validate_divides(t, exists);
        assert(items == t.push(items.last()));
        let a = kept(t, exists).to_multiset();
        let b = missing(t, exists).to_multiset();
        assert(a.insert(items.last()).add(b) == a.add(b).insert(items.last()));
        assert(a.add(b.insert(items.last())) == a.add(b).insert(items.last()));
    } else {
        assert(items.to_multiset() == vstd::multiset::Multiset::<ItemV>::empty());
    }
}

/// A queue whose files are all there stays as it is.
pub proof fn law_validate_keeps(items: Seq<ItemV>, exists: Seq<bool>)
    requires
        forall|i: int| 0 <= i < items.len() ==> #[trigger] there(exists, i),
    ensures
        kept(items, exists) == items,
        missing(items, exists).len() == 0,
    decreases items.len(),
{
    if items.len() > 0 {
        assert(there(exists, items.len() - 1));
        law_validate_keeps(items.drop_last(), exists);
        assert(items.drop_last().push(items.last()) == items);
    }
}

/// A path that is played twice is queued once.
pub proof fn law_play_adds_once(items: Seq<ItemV>, path: Seq<char>, prepend: bool)
    ensures
        with_path(with_path(items, path, prepend), path, prepend) == with_path(items, path, prepend),
{
    lemma_position(items, path);
    let once = with_path(items, path, prepend);
    lemma_position(once, path);
    if position(items, path) is None {
        let i: int = if prepend {
            0
        } else {
            items.len() as int
        };
        assert(once[i].path == path);
    }
}

proof fn lemma_item_reads_back(it: ItemV)
    requires
        fresh(it),
        real_text("0.0"@) == Some("0.0"@),
    ensures
        item_of(item_json(it)) == it,
{
    reveal_strlit("artist");
    reveal_strlit("display");
    reveal_strlit("duration");
    reveal_strlit("path");
    reveal_strlit("title");
    let o = item_json(it)->Obj_0;
    assert("artist"@.len() == 6 && "display"@.len() == 7 && "duration"@.len() == 8);
    assert("path"@.len() == 4 && "title"@.len() == 5);
    lemma_lookup(o);
}

proof fn lemma_lookup(o: Seq<(Seq<char>, JsonV)>)
    requires
        o.len() == 5,
        forall|i: int, j: int| 0 <= i < j < 5 ==> (#[trigger] o[i]).0 != (#[trigger] o[j]).0,
    ensures
        forall|i: int| 0 <= i < 5 ==> crate::json::member(o, (#[trigger] o[i]).0) == Some(o[i].1),
{
    reveal_with_fuel(crate::json::member, 6);
}

/// Fresh items written as JSON are read back as they were, given that `0.0` reads as it
/// stands.
pub proof fn lemma_items_read_back(items: Seq<ItemV>)
    requires
        forall|i: int| 0 <= i < items.len() ==> fresh(#[trigger] items[i]),
        items.len() > 0 ==> real_text("0.0"@) == Some("0.0"@),
    ensures
        items_in(items_json(items)->Arr_0) == items,
    decreases items.len(),
{
    let a = items_json(items)->Arr_0;
    if items.len() > 0 {
        let t = items.drop_last();
        assert forall|i: int| 0 <= i < t.len() implies fresh(#[trigger] t[i]) by {
            assert(fresh(items[i]));
        }
        lemma_items_read_back(t);
        assert(a.drop_last() == items_json(t)->Arr_0);
        assert(fresh(items[items.len() - 1]));
        lemma_item_reads_back(items.last());
        assert(t.push(items.last()) == items);
    } else {
        assert(items_in(a) == items);
    }
}

/// The duration of the first of fresh items is zero.
pub proof fn lemma_first_duration(items: Seq<ItemV>)
    requires
        items.len() > 0,
        fresh(items[0]),
    ensures
        items_json(items)->Arr_0[0].get("duration"@) == Some(real_v("0.0"@)),
        item_of(items_json(items)->Arr_0[0]).path.len() > 0,
{
    reveal_strlit("artist");
    reveal_strlit("display");
    reveal_strlit("duration");
    reveal_strlit("path");
    reveal_strlit("title");
    let o = item_json(items[0])->Obj_0;
    assert("artist"@.len() == 6 && "display"@.len() == 7 && "duration"@.len() == 8);
    assert("path"@.len() == 4 && "title"@.len() == 5);
    lemma_lookup(o);
    assert(o[2].0 == "duration"@ && o[3].0 == "path"@);
}

proof fn lemma_item_alike(v: JsonV, it: ItemV)
    requires
        alike(v, item_json(it)),
    ensures
        same_track(item_of(v), it),
{
    reveal_strlit("artist");
    reveal_strlit("display");
    reveal_strlit("duration");
    reveal_strlit("path");
    reveal_strlit("title");
    let o = item_json(it)->Obj_0;
    assert("artist"@.len() == 6 && "display"@.len() == 7 && "duration"@.len() == 8);
    assert("path"@.len() == 4 && "title"@.len() == 5);
    let w = v->Obj_0;
    assert forall|i: int| 0 <= i < 5 implies (#[trigger] w[i]).0 == o[i].0 && alike(w[i].1, o[i].1) by {
        assert(o[i].0 == o[i].0);
    }
    lemma_lookup(w);
    assert(w[0].0 == "artist"@ && w[1].0 == "display"@ && w[3].0 == "path"@ && w[4].0 == "title"@);
    assert(w[0].1 == o[0].1 && w[1].1 == o[1].1 && w[3].1 == o[3].1 && w[4].1 == o[4].1);
}

/// An array of values that are like the items' own gives their tracks back.
pub proof fn lemma_items_alike(a: Seq<JsonV>, items: Seq<ItemV>)
    requires
        alike(JsonV::Arr(a), items_json(items)),
    ensures
        same_tracks(items_in(a), with_paths(items)),
    decreases items.len(),
{
    reveal(Seq::filter);
    let y = items_json(items)->Arr_0;
    if items.len() > 0 {
        let t = items.drop_last();
        let yt = items_json(t)->Arr_0;
        assert forall|i: int| 0 <= i < yt.len() implies alike(a.drop_last()[i], #[trigger] yt[i]) by {
            assert(yt[i] == y[i]);
        }
        lemma_items_alike(a.drop_last(), t);
        assert(alike(a.last(), y[items.len() - 1]));
        lemma_item_alike(a.last(), items.last());
    }
}

/// Tracks of no known duration are written and read back unchanged, as text too.
pub proof fn law_fresh_items_plain(items: Seq<ItemV>)
    requires
        forall|i: int| 0 <= i < items.len() ==> (#[trigger] items[i]).duration == "0.0"@,
    ensures
        plain(items_json(items), 100),
{
    lemma_items_plain(items, 100);
}

/// Tracks of no known duration are plain, as deep as their nesting needs.
pub proof fn lemma_items_plain(items: Seq<ItemV>, depth: nat)
    requires
        depth >= 3,
        forall|i: int| 0 <= i < items.len() ==> (#[trigger] items[i]).duration == "0.0"@,
    ensures
        plain(items_json(items), depth),
{
    let a = items_json(items)->Arr_0;
    assert forall|i: int| 0 <= i < a.len() implies plain(#[trigger] a[i], (depth - 1) as nat) by {
        assert(items[i].duration == "0.0"@);
        lemma_item_plain(items[i], (depth - 1) as nat);
    }
}

proof fn lemma_item_plain(it: ItemV, depth: nat)
    requires
        depth >= 2,
        it.duration == "0.0"@,
    ensures
        plain(item_json(it), depth),
{
    reveal_strlit("artist");
    reveal_strlit("display");
    reveal_strlit("duration");
    reveal_strlit("path");
    reveal_strlit("title");
    reveal_with_fuel(crate::order::text_le, 3);
    reveal_with_fuel(plain, 3);
    let o = item_json(it)->Obj_0;
    assert(names_ascend(o));
    assert(plain(o[2].1, (depth - 1) as nat));
}

/// Items of numeric durations are orderly, as deep as their nesting needs.
pub proof fn lemma_items_orderly(items: Seq<ItemV>, depth: nat)
    requires
        depth >= 3,
        forall|i: int| 0 <= i < items.len() ==> numeric((#[trigger] items[i]).duration),
    ensures
        orderly(items_json(items), depth),
{
    reveal_strlit("artist");
    reveal_strlit("display");
    reveal_strlit("duration");
    reveal_strlit("path");
    reveal_strlit("title");
    reveal_with_fuel(crate::order::text_le, 3);
    let a = items_json(items)->Arr_0;
    assert forall|i: int| 0 <= i < a.len() implies orderly(#[trigger] a[i], (depth - 1) as nat) by {
        let o = item_json(items[i])->Obj_0;
        assert(numeric(items[i].duration));
        assert(names_ascend(o));
        assert forall|k: int| 0 <= k < o.len() implies orderly((#[trigger] o[k]).1, (depth - 2) as nat) by {}
        assert(a[i] == item_json(items[i]));
    }
}

/// A stored queue is found again: every item that has a path comes back in its place, with
/// its path, its display, its title and its artist, whatever its duration reads as.
pub proof fn law_saved_queue_reads_back(items: Seq<ItemV>, text: Seq<char>)
    requires
        reads_alike(text, items_json(items)),
    ensures
        same_tracks(stored_items(text), with_paths(items)),
{
    lemma_items_alike(json_parsed(text)->Ok_0->Arr_0, items);
}

/// Tracks that are added keep their order: behind the queue, the `i`th of them stands `i` places
/// behind what was there, which stays as it was. Put in front one by one, the last of them comes
/// first, and what was there stands behind them all.
pub proof fn law_tracks_are_added_in_order(items: Seq<ItemV>, paths: Seq<Seq<char>>, i: int)
    ensures
        with_all(items, paths, false).len() == items.len() + paths.len(),
        with_all(items, paths, true).len() == items.len() + paths.len(),
        with_all(items, paths, false).take(items.len() as int) == items,
        with_all(items, paths, true).skip(paths.len() as int) == items,
        0 <= i < paths.len() ==> with_all(items, paths, false)[items.len() + i] == fresh_item(paths[i]),
        0 <= i < paths.len() ==> with_all(items, paths, true)[paths.len() - 1 - i] == fresh_item(paths[i]),
        paths_view(with_all(items, paths, false)) == paths_view(items) + paths,
        paths_view(with_all(items, paths, true)) == paths.reverse() + paths_view(items),
    decreases paths.len(),
{
    if paths.len() > 0 {
        let f = paths.drop_last();
        law_tracks_are_added_in_order(items, f, i);
        let a = with_all(items, f, false);
        let b = with_all(items, f, true);
        assert(with_all(items, paths, false) == a.push(fresh_item(paths.last())));
        assert(with_all(items, paths, true) == b.insert(0, fresh_item(paths.last())));
        assert(with_all(items, paths, false).take(items.len() as int) =~= a.take(items.len() as int));
        assert(with_all(items, paths, true).skip(paths.len() as int) =~= b.skip(f.len() as int));
        assert(paths_view(with_all(items, paths, false)) =~= paths_view(a).push(paths.last()));
        assert(paths_view(items) + paths =~= (paths_view(items) + f).push(paths.last()));
        assert(paths_view(with_all(items, paths, true)) =~= seq![paths.last()] + paths_view(b));
        assert(paths.reverse() =~= seq![paths.last()] + f.reverse());
        assert(paths.reverse() + paths_view(items) =~= seq![paths.last()] + (f.reverse() + paths_view(items)));
    } else {
        assert(items.take(items.len() as int) =~= items);
        assert(items.skip(0) =~= items);
        assert(paths_view(items) + paths =~= paths_view(items));
        assert(paths.reverse() + paths_view(items) =~= paths_view(items));
    }
}

/// A path that is queued is kept as it is, and shown by the name of its file without the
/// extension, wherever it stands.
pub proof fn law_item_of_a_path(dir: Seq<char>, name: Seq<char>, ext: Seq<char>, path: Seq<char>)
    requires
        name.len() > 0,
        !name.contains('/'),
        name != "."@,
        !ext.contains('/'),
        !ext.contains('.'),
    ensures
        fresh_item(path).path == path && fresh_item(path).duration == "0.0"@,
        fresh_item(path).title.len() == 0 && fresh_item(path).artist.len() == 0,
        !crate::text::starts(dir + "/"@ + name + "."@ + ext, "file://"@) ==> fresh_item(dir + "/"@ + name + "."@ + ext).display
            == name,
        fresh_item("file://"@ + (dir + "/"@ + name + "."@ + ext)).display == name,
        shown(fresh_item(path)) == fresh_item(path).display || fresh_item(path).display.len() == 0,
{
    reveal_strlit("");
    crate::paths::law_file_is_named(dir, name, ext);
    let p = dir + "/"@ + name + "."@ + ext;
    let f = "file://"@ + p;
    assert(f.subrange(0, "file://"@.len() as int) =~= "file://"@);
    assert(f.skip("file://"@.len() as int) =~= p);
}

/// A track is looked up by its path: the first that has it is meant.
pub proof fn law_first_of_a_path(items: Seq<ItemV>, path: Seq<char>)
    ensures
        match position(items, path) {
            Some(i) => 0 <= i < items.len() && items[i].path == path && forall|j: int|
                0 <= j < i ==> (#[trigger] items[j]).path != path,
            None => forall|j: int| 0 <= j < items.len() ==> (#[trigger] items[j]).path != path,
        },
    decreases items.len(),
{
    if items.len() > 0 {
        let f = items.drop_last();
        law_first_of_a_path(f, path);
        assert forall|j: int| 0 <= j < items.len() - 1 implies items[j] == f[j] by {}
    }
}

/// Moving a track leaves the others in their order.
pub proof fn law_move_leaves_others(items: Seq<ItemV>, from: int, to: int)
    requires
        0 <= from < items.len(),
        0 <= to < items.len(),
    ensures
        moved(items, from, to).remove(to) == items.remove(from),
        moved(items, from, to)[to] == items[from],
        moved(items, from, from) == items,
{
    assert(moved(items, from, to).remove(to) =~= items.remove(from));
    assert(moved(items, from, from) =~= items);
}

/// What is kept of a queue is what is there, in its order; the rest is what is reported as
/// missing.
pub proof fn law_missing_are_dropped(items: Seq<ItemV>, exists: Seq<bool>, it: ItemV)
    requires
        exists.len() == items.len() + 1,
    ensures
        exists.last() ==> kept(items.push(it), exists) == kept(items, exists.drop_last()).push(it) && missing(
            items.push(it),
            exists,
        ) == missing(items, exists.drop_last()),
        !exists.last() ==> kept(items.push(it), exists) == kept(items, exists.drop_last()) && missing(items.push(it), exists)
            == missing(items, exists.drop_last()).push(it),
        kept(Seq::empty(), Seq::empty()).len() == 0,
        missing(Seq::empty(), Seq::empty()).len() == 0,
{
    assert(items.push(it).drop_last() == items);
    lemma_exists_prefix(items, exists.drop_last(), exists);
}

proof fn lemma_exists_prefix(items: Seq<ItemV>, a: Seq<bool>, b: Seq<bool>)
    requires
        items.len() <= a.len(),
        items.len() <= b.len(),
        forall|i: int| 0 <= i < items.len() ==> a[i] == b[i],
    ensures
        kept(items, a) == kept(items, b),
        missing(items, a) == missing(items, b),
    decreases items.len(),
{
    if items.len() > 0 {
        lemma_exists_prefix(items.drop_last(), a, b);
    }
}

/// Handing a playlist to mpv clears what it has and loads the files in their order, the first in
/// place of what plays and the others behind it; then it plays, without video. An empty playlist
/// stops it.
pub proof fn law_playlist_is_handed_over(paths: Seq<Seq<char>>, i: int)
    ensures
        paths.len() > 0 ==> {
            &&& sync_of(paths).gate == Some(JsonV::Arr(seq![JsonV::Str("playlist-clear"@)]))
            &&& sync_of(paths).rest.len() == paths.len() + 2
            &&& sync_of(paths).rest[0] == JsonV::Arr(
                seq![JsonV::Str("loadfile"@), JsonV::Str(paths[0]), JsonV::Str("replace"@)],
            )
            &&& sync_of(paths).rest[paths.len() as int] == JsonV::Arr(
                seq![JsonV::Str("set_property"@), JsonV::Str("pause"@), JsonV::Bool(false)],
            )
        },
        0 < i < paths.len() ==> sync_of(paths).rest[i] == JsonV::Arr(
            seq![JsonV::Str("loadfile"@), JsonV::Str(paths[i]), JsonV::Str("append"@)],
        ),
        paths.len() == 0 ==> sync_of(paths).gate is None && sync_of(paths).rest == seq![
            JsonV::Arr(seq![JsonV::Str("stop"@)]),
        ],
{
}

/// Files that are put on by themselves are loaded in their order too: the first in place of what
/// plays, every other one behind it, and the first gives its name to what plays.
pub proof fn law_files_are_put_on(files: Seq<Seq<char>>, i: int)
    requires
        0 <= i < files.len(),
    ensures
        start_of(files).label == display_text(files[0]),
        start_of(files).line == "Playing "@ + dec(files.len() as int) + " track(s)"@,
        start_of(files).commands.len() == files.len() + 3,
        start_of(files).commands[0] == JsonV::Arr(seq![JsonV::Str("playlist-clear"@)]),
        start_of(files).commands[if i == 0 {
            1
        } else {
            i + 3
        }] == JsonV::Arr(
            seq![
                JsonV::Str("loadfile"@),
                JsonV::Str(files[i]),
                JsonV::Str(
                    if i == 0 {
                        "replace"@
                    } else {
                        "append"@
                    },
                ),
            ],
        ),
{
}

/// Playing from a place in the queue loads the track at that place first, then those behind it in
/// their order, and around the end those before it where that is wished.
pub proof fn law_queue_plays_on(items: Seq<ItemV>, index: int, wrap: bool, k: int)
    requires
        0 <= index < items.len(),
    ensures
        plan_from(items, index, wrap).label == shown(items[index]),
        0 <= k < items.len() - index ==> paths_view(queue_from(items, index, wrap))[k] == items[index + k].path,
        wrap && items.len() - index <= k < items.len() ==> paths_view(queue_from(items, index, wrap))[k] == items[index + k
            - items.len()].path,
        queue_from(items, index, wrap).len() == if wrap {
            items.len() as int
        } else {
            items.len() - index
        },
        plan_from(items, index, wrap).sync.rest[0] == JsonV::Arr(
            seq![JsonV::Str("loadfile"@), JsonV::Str(items[index].path), JsonV::Str("replace"@)],
        ),
{
    law_playlist_is_handed_over(paths_view(queue_from(items, index, wrap)), 0);
}

/// The next track is the one behind that which plays, the previous one the one before it, around
/// the ends of the queue; what is not queued is left to mpv's own playlist.
pub proof fn law_skip_goes_to_the_neighbour(s: SessionV, cur: Seq<char>, i: int)
    ensures
        position(s.items, cur) == Some(i) && cur.len() > 0 ==> {
            let next = if i == s.items.len() - 1 {
                0
            } else {
                i + 1
            };
            let prev = if i == 0 {
                s.items.len() - 1
            } else {
                i - 1
            };
            &&& skip_outcome(s, cur, true).end == EndV::Play(plan_from(s.items, next, true))
            &&& skip_outcome(s, cur, false).end == EndV::Play(plan_from(s.items, prev, true))
            &&& queue_next_outcome(s, cur).end == EndV::Play(plan_from(s.items, next, true))
        },
        position(s.items, cur) is None || cur.len() == 0 ==> {
            &&& skip_outcome(s, cur, true).steps == seq![StepV::Mpv(JsonV::Arr(seq![JsonV::Str("playlist-next"@)]))]
            &&& skip_outcome(s, cur, false).steps == seq![StepV::Mpv(JsonV::Arr(seq![JsonV::Str("playlist-prev"@)]))]
        },
        position(s.items, cur) is None && s.items.len() > 0 ==> queue_next_outcome(s, cur).end == EndV::Play(
            plan_from(s.items, 0, false),
        ),
{
    law_first_of_a_path(s.items, cur);
    let n = s.items.len() as int;
    if position(s.items, cur) == Some(i) {
        if i == n - 1 {
            assert((i + 1) % n == 0) by (nonlinear_arith)
                requires
                    i == n - 1,
                    n > 0,
            ;
        } else {
            assert((i + 1) % n == i + 1) by (nonlinear_arith)
                requires
                    0 <= i,
                    i + 1 < n,
            ;
        }
        if i == 0 {
            assert((i + n - 1) % n == n - 1) by (nonlinear_arith)
                requires
                    i == 0,
                    n > 0,
            ;
        } else {
            assert((i + n - 1) % n == i - 1) by (nonlinear_arith)
                requires
                    0 < i < n,
            ;
        }
    }
}

/// Where mpv plays from the queue, a change hands it the whole queue again, and the track that
/// plays keeps playing: mpv is sent to its place. An emptied queue stops mpv. Where mpv plays
/// something else, it is left alone.
pub proof fn law_change_reaches_mpv(s: SessionV, cur: Seq<char>)
    ensures
        !s.driven ==> resync_steps(s, cur).len() == 0,
        s.driven && s.items.len() > 0 ==> resync_steps(s, cur).len() > 0 && resync_steps(s, cur)[0] == StepV::Sync(
            sync_of(paths_view(s.items)),
        ),
        s.driven && s.items.len() > 0 ==> match position(s.items, cur) {
            Some(i) => if i > 0 {
                resync_steps(s, cur).len() == 2 && resync_steps(s, cur)[1] == StepV::Mpv(
                    JsonV::Arr(seq![JsonV::Str("set_property"@), JsonV::Str("playlist-pos"@), int_v(i)]),
                )
            } else {
                resync_steps(s, cur).len() == 1
            },
            None => resync_steps(s, cur).len() == 1,
        },
        s.driven && s.items.len() == 0 ==> resync_steps(s, cur).contains(
            StepV::Mpv(JsonV::Arr(seq![JsonV::Str("stop"@)])),
        ) && !resynced(s).driven,
        s.items.len() > 0 ==> resynced(s) == s,
        resynced(s).items == s.items && resynced(s).label == s.label,
        !s.driven ==> !resynced(s).driven,
{
    if s.driven && s.items.len() == 0 {
        assert(resync_steps(s, cur)[1] == StepV::Mpv(JsonV::Arr(seq![JsonV::Str("stop"@)])));
    }
}

/// A change of the queue is stored, and said.
pub proof fn law_change_is_stored(now: SessionV, cur: Seq<char>, line: Seq<char>)
    ensures
        changed(now, cur, line).steps.contains(StepV::Save),
        changed(now, cur, line).steps.last() == StepV::Say(line),
        changed(now, cur, line).end == EndV::Code(0),
        changed(now, cur, line).steps.take(resync_steps(now, cur).len() as int) == resync_steps(now, cur),
{
    let n = resync_steps(now, cur).len() as int;
    assert(changed(now, cur, line).steps[n] == StepV::Save);
    assert(changed(now, cur, line).steps.take(n) =~= resync_steps(now, cur));
}

/// Playing the queue drops what is missing, says so of each, and plays the rest from its start; an
/// empty queue is said to be empty.
pub proof fn law_queue_is_cleaned_and_played(s: SessionV, exists: Seq<bool>, cur: Seq<char>, i: int)
    ensures
        s.items.len() == 0 ==> play_outcome(s, exists, cur) == said("Queue empty."@, 1),
        kept(s.items, exists).len() > 0 ==> play_outcome(s, exists, cur).end == EndV::Play(
            plan_from(kept(s.items, exists), 0, false),
        ),
        s.items.len() > 0 && kept(s.items, exists).len() == 0 ==> play_outcome(s, exists, cur).end == EndV::Code(1),
        0 <= i < missing(s.items, exists).len() ==> play_outcome(s, exists, cur).steps[i] == StepV::Say(
            "Removed missing: "@ + base_text(missing(s.items, exists)[i].path),
        ),
        missing(s.items, exists).len() == 0 && s.items.len() > 0 ==> play_outcome(s, exists, cur).steps.len() == 0,
        missing(s.items, exists).len() > 0 ==> play_outcome(s, exists, cur).steps.contains(StepV::Save),
{
    law_validate_divides(s.items, exists);
    let gone = missing(s.items, exists);
    if gone.len() > 0 {
        let now = with_items(s, kept(s.items, exists));
        let n = gone.len() + resync_steps(now, cur).len();
        assert(play_outcome(s, exists, cur).steps[n as int] == StepV::Save);
    }
}

/// A place is written as a number that is counted from one.
pub proof fn law_places_count_from_one(n: int)
    requires
        0 <= n <= usize::MAX,
    ensures
        n >= 1 ==> user_index(dec(n)) == Some(n - 1),
        n == 0 ==> user_index(dec(n)) is None,
{
    crate::nums::law_dec_reads_back(n, 0, usize::MAX as int);
}

/// Each track is listed on its own line, by its place, counted from one, and by how it is shown;
/// the first is marked.
pub proof fn law_queue_is_listed(items: Seq<ItemV>, i: int)
    requires
        0 <= i < items.len(),
    ensures
        list_text(items).len() == items.len(),
        crate::text::ends(list_text(items)[i], dec(i + 1) + ". "@ + shown(items[i])),
        crate::text::starts(
            list_text(items)[i],
            "  "@ + if i == 0 {
                "▶"@
            } else {
                " "@
            },
        ),
{
    let head = "  "@ + (if i == 0 {
        "▶"@
    } else {
        " "@
    });
    let d = dec(i + 1);
    let gap = pad(d, 3).take(pad(d, 3).len() - d.len());
    assert(pad(d, 3) =~= gap + d);
    lemma_line_parts(head, " "@, gap, d, ". "@, shown(items[i]));
}

proof fn lemma_line_parts(head: Seq<char>, sp: Seq<char>, gap: Seq<char>, d: Seq<char>, dot: Seq<char>, t: Seq<char>)
    ensures
        crate::text::ends(head + sp + (gap + d) + dot + t, d + dot + t),
        crate::text::starts(head + sp + (gap + d) + dot + t, head),
{
    let all = head + sp + (gap + d) + dot + t;
    let tail = d + dot + t;
    let front = head + sp + gap;
    assert(front + tail =~= all);
    crate::text::law_has_is_contains(front, tail, Seq::empty());
    let rest = sp + gap + tail;
    assert(head + rest =~= all);
    crate::text::law_has_is_contains(Seq::empty(), head, rest);
}

/// A time is shown in minutes and seconds, the seconds by two digits.
pub proof fn law_clock_shows(minutes: int, seconds: int)
    requires
        0 <= minutes,
        0 <= seconds < 60,
    ensures
        clock(60 * minutes + seconds) == dec(minutes) + ":"@ + (if seconds < 10 {
            seq!['0'] + dec(seconds)
        } else {
            dec(seconds)
        }),
        clock(-1 - minutes) == clock(0),
{
}

/// How repeating is shown: that of the playlist comes before that of the track, and a property
/// that is not set means off.
pub proof fn law_repeat_is_shown(playlist: Option<JsonV>, file: Option<JsonV>)
    ensures
        playlist == Some(JsonV::Str("inf"@)) || playlist == Some(JsonV::Bool(true)) ==> repeat_text(playlist, file) == "all"@,
        (playlist is None || playlist == Some(JsonV::Bool(false))) && (file == Some(JsonV::Str("inf"@)) || file == Some(
            JsonV::Bool(true),
        )) ==> repeat_text(playlist, file) == "track"@,
        (playlist is None || playlist == Some(JsonV::Bool(false))) && (file is None || file == Some(JsonV::Bool(false)))
            ==> repeat_text(playlist, file) == "off"@,
{
}

/// What is reported of a running mpv: whether it is paused, the track, the time where it is known,
/// the volume and the modes, in this order.
pub proof fn law_status_is_reported(c: ConfigV, s: SessionV, m: MpvState)
    ensures
        ({
            let t = status_text(c, s, m);
            &&& t[0] == if m.paused {
                "status: "@ + "paused"@
            } else {
                "status: "@ + "playing"@
            }
            &&& m.path@.len() > 0 && display_text(m.path@).len() > 0 ==> t[1] == "track:  "@ + display_text(m.path@)
            &&& m.path@.len() == 0 && s.label.len() > 0 ==> t[1] == "track:  "@ + s.label
            &&& m.dur matches Some(d) ==> t.len() == 5 && t[2] == "time:   "@ + clock(m.pos as int) + " / "@ + clock(d as int)
            &&& m.dur is None ==> t.len() == 4
            &&& m.volume matches Some(v) ==> t[t.len() - 2] == "vol:    "@ + dec(v as int) + "%"@
            &&& m.volume is None ==> t[t.len() - 2] == "vol:    "@ + dec(c.default_volume) + "%"@
            &&& t.last() == "mode:   shuffle "@ + (if m.shuffle {
                "on"@
            } else {
                "off"@
            }) + " · repeat "@ + m.repeat@
        }),
{
}

/// What is left out of the queue is listed by its tracks, in their order.
pub proof fn law_left_out_are_listed(v: Seq<(QueueItem, String)>, i: int)
    requires
        0 <= i < v.len(),
    ensures
        removal_items(v).len() == v.len(),
        removal_items(v)[i] == v[i].0@,
{
}

/// mpv loops where it says so by a word that means it, or by a plain yes.
pub proof fn law_loop_is_read(s: Seq<char>, b: bool)
    ensures
        looping(Some(JsonV::Str(s))) <==> seq!["inf"@, "yes"@, "always"@].contains(s),
        looping(Some(JsonV::Bool(b))) == b,
        !looping(Some(JsonV::Null)),
        !looping(None),
{
    let words = seq!["inf"@, "yes"@, "always"@];
    assert(words[0] == "inf"@ && words[1] == "yes"@ && words[2] == "always"@);
}

/// An empty queue is listed as such, and has no next track; where the track that plays is not in
/// the queue, the next one is the first, and where it is, the one behind it, around the end.
pub proof fn law_next_of_the_queue(s: SessionV, cur: Seq<char>, i: int)
    ensures
        list_text(Seq::empty()) == seq!["(queue empty)"@],
        s.items.len() == 0 ==> queue_next_outcome(s, cur) == said("Queue empty."@, 1),
        s.items.len() > 0 && position(s.items, cur) is None ==> queue_next_outcome(s, cur) == played(
            plan_from(s.items, 0, false),
        ),
        position(s.items, cur) == Some(i) && i + 1 < s.items.len() ==> queue_next_outcome(s, cur) == played(
            plan_from(s.items, i + 1, true),
        ),
        position(s.items, cur) == Some(i) && i + 1 == s.items.len() ==> queue_next_outcome(s, cur) == played(
            plan_from(s.items, 0, true),
        ),
        cur.len() > 0 ==> label_now(s, cur) == display_text(cur),
        cur.len() == 0 ==> label_now(s, cur) == s.label,
{
    lemma_position_in(s.items, cur);
    let n = s.items.len() as int;
    if position(s.items, cur) == Some(i) && i + 1 < n {
        vstd::arithmetic::div_mod::lemma_small_mod((i + 1) as nat, n as nat);
    }
}

proof fn lemma_position_in(items: Seq<ItemV>, cur: Seq<char>)
    ensures
        position(items, cur) matches Some(i) ==> 0 <= i < items.len(),
    decreases items.len(),
{
    if items.len() > 0 {
        lemma_position_in(items.drop_last(), cur);
    }
}

} // verus!
