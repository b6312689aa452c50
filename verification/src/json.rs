//! JSON values as the player reads and writes them.
//!
//! Reading and writing the text is the work of `serde_json`; everything that looks
//! into a value is defined here, over the model [`JsonV`].

use vstd::prelude::*;
use crate::nums::{all_digits, dec, dec_i64, dec_u64, is_digit};
use crate::order::text_le;
use crate::text::{first_pos, opt_str, opt_view, same, views};

verus! {

/// A JSON number: the integer it is, where it is one, and its text.
pub struct JsonNum {
    pub int: Option<i64>,
    pub uint: Option<u64>,
    pub text: String,
}

/// A JSON value. The members of an object keep the order that they were read in.
pub enum Json {
    Null,
    Bool(bool),
    Num(JsonNum),
    Str(String),
    Arr(Vec<Json>),
    Obj(Vec<(String, Json)>),
}

/// The model of a [`JsonNum`].
#[verifier::ext_equal]
pub struct NumV {
    pub int: Option<i64>,
    pub uint: Option<u64>,
    pub text: Seq<char>,
}

/// The model of a [`Json`].
#[verifier::ext_equal]
pub enum JsonV {
    Null,
    Bool(bool),
    Num(NumV),
    Str(Seq<char>),
    Arr(Seq<JsonV>),
    Obj(Seq<(Seq<char>, JsonV)>),
}

impl View for JsonNum {
    type V = NumV;

    open spec fn view(&self) -> NumV {
        NumV { int: self.int, uint: self.uint, text: self.text@ }
    }
}

/// The model of a value.
pub open spec fn model(j: Json) -> JsonV
    decreases j,
{
    match j {
        Json::Null => JsonV::Null,
        Json::Bool(b) => JsonV::Bool(b),
        Json::Num(n) => JsonV::Num(n@),
        Json::Str(s) => JsonV::Str(s@),
        Json::Arr(a) => JsonV::Arr(
            Seq::new(a@.len(), |i: int| if 0 <= i < a@.len() { model(a@[i]) } else { JsonV::Null }),
        ),
        Json::Obj(o) => JsonV::Obj(
            Seq::new(
                o@.len(),
                |i: int|
                    if 0 <= i < o@.len() {
                        (o@[i].0@, model(o@[i].1))
                    } else {
                        (Seq::empty(), JsonV::Null)
                    },
            ),
        ),
    }
}

impl View for Json {
    type V = JsonV;

    open spec fn view(&self) -> JsonV {
        model(*self)
    }
}

/// The models of a list of values.
pub open spec fn jsons(a: Seq<Json>) -> Seq<JsonV> {
    Seq::new(a.len(), |i: int| a[i]@)
}

/// The models of the members of an object.
pub open spec fn members(o: Seq<(String, Json)>) -> Seq<(Seq<char>, JsonV)> {
    Seq::new(o.len(), |i: int| (o[i].0@, o[i].1@))
}

/// The model of an optional value.
pub open spec fn opt_json(o: Option<&Json>) -> Option<JsonV> {
    match o {
        Some(j) => Some(j@),
        None => None,
    }
}

/// An array's model is made of its elements' models.
pub proof fn lemma_arr(a: Vec<Json>)
    ensures
        Json::Arr(a)@ == JsonV::Arr(jsons(a@)),
{
    assert(Json::Arr(a)@->Arr_0 == jsons(a@));
}

/// An object's model is made of its members' models.
pub proof fn lemma_obj(o: Vec<(String, Json)>)
    ensures
        Json::Obj(o)@ == JsonV::Obj(members(o@)),
{
    assert(Json::Obj(o)@->Obj_0 == members(o@));
}

// ---- looking into a value ----

impl JsonV {
    /// The text, where the value is one.
    pub open spec fn as_str(self) -> Option<Seq<char>> {
        match self {
            JsonV::Str(s) => Some(s),
            _ => None,
        }
    }

    /// The truth value, where the value is one.
    pub open spec fn as_bool(self) -> Option<bool> {
        match self {
            JsonV::Bool(b) => Some(b),
            _ => None,
        }
    }

    /// The signed integer, where the value is a number that fits one.
    pub open spec fn as_i64(self) -> Option<i64> {
        match self {
            JsonV::Num(n) => n.int,
            _ => None,
        }
    }

    /// The unsigned integer, where the value is a number that fits one.
    pub open spec fn as_u64(self) -> Option<u64> {
        match self {
            JsonV::Num(n) => n.uint,
            _ => None,
        }
    }

    /// The elements, where the value is an array.
    pub open spec fn as_arr(self) -> Option<Seq<JsonV>> {
        match self {
            JsonV::Arr(a) => Some(a),
            _ => None,
        }
    }

    /// The elements of an array; none of any other value.
    pub open spec fn items(self) -> Seq<JsonV> {
        match self {
            JsonV::Arr(a) => a,
            _ => Seq::empty(),
        }
    }

    /// The member called `key`, where the value is an object that has one.
    pub open spec fn get(self, key: Seq<char>) -> Option<JsonV> {
        match self {
            JsonV::Obj(o) => member(o, key),
            _ => None,
        }
    }

    /// The text of the member called `key`.
    pub open spec fn str_at(self, key: Seq<char>) -> Option<Seq<char>> {
        match self.get(key) {
            Some(v) => v.as_str(),
            None => None,
        }
    }

    /// The text of the member called `key`, or `other`.
    pub open spec fn str_or(self, key: Seq<char>, other: Seq<char>) -> Seq<char> {
        match self.str_at(key) {
            Some(s) => s,
            None => other,
        }
    }

    /// The truth value of the member called `key`.
    pub open spec fn bool_at(self, key: Seq<char>) -> Option<bool> {
        match self.get(key) {
            Some(v) => v.as_bool(),
            None => None,
        }
    }

    /// The signed integer of the member called `key`.
    pub open spec fn i64_at(self, key: Seq<char>) -> Option<i64> {
        match self.get(key) {
            Some(v) => v.as_i64(),
            None => None,
        }
    }

    /// The unsigned integer of the member called `key`.
    pub open spec fn u64_at(self, key: Seq<char>) -> Option<u64> {
        match self.get(key) {
            Some(v) => v.as_u64(),
            None => None,
        }
    }

    /// The elements of the array member called `key`.
    pub open spec fn arr_at(self, key: Seq<char>) -> Option<Seq<JsonV>> {
        match self.get(key) {
            Some(v) => v.as_arr(),
            None => None,
        }
    }

    /// The elements of the array member called `key`; none where there is no such array.
    pub open spec fn items_at(self, key: Seq<char>) -> Seq<JsonV> {
        match self.arr_at(key) {
            Some(a) => a,
            None => Seq::empty(),
        }
    }
}

/// The first member called `key`.
pub open spec fn member(o: Seq<(Seq<char>, JsonV)>, key: Seq<char>) -> Option<JsonV>
    decreases o.len(),
{
    if o.len() == 0 {
        None
    } else {
        match member(o.drop_last(), key) {
            Some(v) => Some(v),
            None => if o.last().0 == key {
                Some(o.last().1)
            } else {
                None
            },
        }
    }
}

/// The texts among the elements of an array, in order.
pub open spec fn texts(a: Seq<JsonV>) -> Seq<Seq<char>>
    decreases a.len(),
{
    if a.len() == 0 {
        Seq::empty()
    } else {
        match a.last().as_str() {
            Some(s) => texts(a.drop_last()).push(s),
            None => texts(a.drop_last()),
        }
    }
}

/// The texts among the elements of an array, in order.
pub fn texts_of(a: &Vec<Json>) -> (r: Vec<String>)
    ensures
        views(r@) == texts(jsons(a@)),
{
    let mut r: Vec<String> = Vec::new();
    proof {
        assert(views(r@) == texts(jsons(a@).take(0)));
    }
    for i in 0..a.len()
        invariant
            views(r@) == texts(jsons(a@).take(i as int)),
    {
        proof {
            assert(jsons(a@).take(i + 1).drop_last() == jsons(a@).take(i as int));
        }
        let ghost before = views(r@);
        match a[i].as_str() {
            Some(s) => {
                r.push(s.to_owned());
                assert(views(r@) == before.push(s@));
            },
            None => {},
        }
    }
    assert(jsons(a@).take(a.len() as int) == jsons(a@));
    r
}

proof fn lemma_member_found(o: Seq<(Seq<char>, JsonV)>, key: Seq<char>, i: int)
    requires
        0 <= i < o.len(),
        o[i].0 == key,
        forall|j: int| 0 <= j < i ==> o[j].0 != key,
    ensures
        member(o, key) == Some(o[i].1),
    decreases o.len(),
{
    if i < o.len() - 1 {
        lemma_member_found(o.drop_last(), key, i);
    } else {
        lemma_member_missing(o.drop_last(), key);
    }
}

proof fn lemma_member_missing(o: Seq<(Seq<char>, JsonV)>, key: Seq<char>)
    requires
        forall|j: int| 0 <= j < o.len() ==> o[j].0 != key,
    ensures
        member(o, key) is None,
    decreases o.len(),
{
    if o.len() > 0 {
        lemma_member_missing(o.drop_last(), key);
    }
}

impl Json {
    /// The text, where the value is one.
    pub fn as_str(&self) -> (r: Option<&str>)
        ensures
            opt_str(r) == self@.as_str(),
    {
        match self {
            Json::Str(s) => Some(s.as_str()),
            _ => None,
        }
    }

    /// The truth value, where the value is one.
    pub fn as_bool(&self) -> (r: Option<bool>)
        ensures
            r == self@.as_bool(),
    {
        match self {
            Json::Bool(b) => Some(*b),
            _ => None,
        }
    }

    /// The signed integer, where the value is a number that fits one.
    pub fn as_i64(&self) -> (r: Option<i64>)
        ensures
            r == self@.as_i64(),
    {
        match self {
            Json::Num(n) => n.int,
            _ => None,
        }
    }

    /// The unsigned integer, where the value is a number that fits one.
    pub fn as_u64(&self) -> (r: Option<u64>)
        ensures
            r == self@.as_u64(),
    {
        match self {
            Json::Num(n) => n.uint,
            _ => None,
        }
    }

    /// The elements, where the value is an array.
    pub fn as_arr(&self) -> (r: Option<&Vec<Json>>)
        ensures
            match r {
                Some(a) => self@.as_arr() == Some(jsons(a@)),
                None => self@.as_arr() is None,
            },
    {
        match self {
            Json::Arr(a) => {
                proof {
                    assert(self@->Arr_0 == jsons(a@));
                }
                Some(a)
            },
            _ => None,
        }
    }

    /// The member called `key`, where the value is an object that has one.
    pub fn get(&self, key: &str) -> (r: Option<&Json>)
        ensures
            opt_json(r) == self@.get(key@),
    {
        match self {
            Json::Obj(o) => {
                proof {
                    assert(self@->Obj_0 == members(o@));
                }
                for i in 0..o.len()
                    invariant
                        forall|j: int| 0 <= j < i ==> o@[j].0@ != key@,
                        self@ == JsonV::Obj(members(o@)),
                {
                    if same(o[i].0.as_str(), key) {
                        proof {
                            lemma_member_found(members(o@), key@, i as int);
                        }
                        return Some(&o[i].1);
                    }
                }
                proof {
                    lemma_member_missing(members(o@), key@);
                }
                None
            },
            _ => None,
        }
    }

    /// The text of the member called `key`.
    pub fn str_at(&self, key: &str) -> (r: Option<&str>)
        ensures
            opt_str(r) == self@.str_at(key@),
    {
        match self.get(key) {
            Some(v) => v.as_str(),
            None => None,
        }
    }

    /// The text of the member called `key`, or `other`.
    pub fn str_or(&self, key: &str, other: &str) -> (r: String)
        ensures
            r@ == self@.str_or(key@, other@),
    {
        match self.str_at(key) {
            Some(s) => s.to_owned(),
            None => other.to_owned(),
        }
    }

    /// The truth value of the member called `key`.
    pub fn bool_at(&self, key: &str) -> (r: Option<bool>)
        ensures
            r == self@.bool_at(key@),
    {
        match self.get(key) {
            Some(v) => v.as_bool(),
            None => None,
        }
    }

    /// The signed integer of the member called `key`.
    pub fn i64_at(&self, key: &str) -> (r: Option<i64>)
        ensures
            r == self@.i64_at(key@),
    {
        match self.get(key) {
            Some(v) => v.as_i64(),
            None => None,
        }
    }

    /// The unsigned integer of the member called `key`.
    pub fn u64_at(&self, key: &str) -> (r: Option<u64>)
        ensures
            r == self@.u64_at(key@),
    {
        match self.get(key) {
            Some(v) => v.as_u64(),
            None => None,
        }
    }

    /// The elements of the array member called `key`.
    pub fn arr_at(&self, key: &str) -> (r: Option<&Vec<Json>>)
        ensures
            match r {
                Some(a) => self@.arr_at(key@) == Some(jsons(a@)),
                None => self@.arr_at(key@) is None,
            },
    {
        match self.get(key) {
            Some(v) => v.as_arr(),
            None => None,
        }
    }
}

impl Json {
    /// A copy.
    pub fn copy(&self) -> (j: Json)
        ensures
            j@ == self@,
        decreases self,
    {
        match self {
            Json::Null => Json::Null,
            Json::Bool(b) => Json::Bool(*b),
            Json::Num(n) => Json::Num(JsonNum { int: n.int, uint: n.uint, text: n.text.clone() }),
            Json::Str(s) => Json::Str(s.clone()),
            Json::Arr(a) => {
                let mut r: Vec<Json> = Vec::new();
                let mut i: usize = 0;
                while i < a.len()
                    invariant
                        self == Json::Arr(*a),
                        i <= a.len(),
                        r.len() == i,
                        forall|k: int| 0 <= k < i ==> (#[trigger] r@[k])@ == a@[k]@,
                    decreases a.len() - i,
                {
                    assert(decreases_to!(self => self->Arr_0));
                    assert(decreases_to!(self->Arr_0 => self->Arr_0@));
                    assert(decreases_to!(self->Arr_0@ => self->Arr_0@[i as int]));
                    r.push(a[i].copy());
                    i = i + 1;
                }
                proof {
                    lemma_arr(r);
                    lemma_arr(*a);
                    assert(jsons(r@) == jsons(a@));
                }
                Json::Arr(r)
            },
            Json::Obj(o) => {
                let mut r: Vec<(String, Json)> = Vec::new();
                let mut i: usize = 0;
                while i < o.len()
                    invariant
                        self == Json::Obj(*o),
                        i <= o.len(),
                        r.len() == i,
                        forall|k: int|
                            0 <= k < i ==> (#[trigger] r@[k]).0@ == o@[k].0@ && r@[k].1@ == o@[k].1@,
                    decreases o.len() - i,
                {
                    assert(decreases_to!(self => self->Obj_0));
                    assert(decreases_to!(self->Obj_0 => self->Obj_0@));
                    assert(decreases_to!(self->Obj_0@ => self->Obj_0@[i as int]));
                    assert(decreases_to!(self->Obj_0@[i as int] => self->Obj_0@[i as int].1));
                    r.push((o[i].0.clone(), o[i].1.copy()));
                    i = i + 1;
                }
                proof {
                    lemma_obj(r);
                    lemma_obj(*o);
                    assert(members(r@) == members(o@));
                }
                Json::Obj(r)
            },
        }
    }
}

// ---- making values ----

/// The number `i`.
pub open spec fn int_v(i: int) -> JsonV {
    JsonV::Num(
        NumV {
            int: if i64::MIN <= i <= i64::MAX {
                Some(i as i64)
            } else {
                None
            },
            uint: if 0 <= i <= u64::MAX {
                Some(i as u64)
            } else {
                None
            },
            text: dec(i),
        },
    )
}

/// The object with one member.
pub open spec fn obj1(k: Seq<char>, v: JsonV) -> JsonV {
    JsonV::Obj(seq![(k, v)])
}

/// The number whose text is `text` and which is no integer.
pub open spec fn real_v(text: Seq<char>) -> JsonV {
    JsonV::Num(NumV { int: None, uint: None, text })
}

/// The text value `s`.
pub fn json_str(s: &str) -> (j: Json)
    ensures
        j@ == JsonV::Str(s@),
{
    Json::Str(s.to_owned())
}

/// The number `i`.
pub fn json_i64(i: i64) -> (j: Json)
    ensures
        j@ == int_v(i as int),
{
    Json::Num(
        JsonNum {
            int: Some(i),
            uint: if i >= 0 {
                Some(i as u64)
            } else {
                None
            },
            text: dec_i64(i),
        },
    )
}

/// The number `u`.
pub fn json_u64(u: u64) -> (j: Json)
    ensures
        j@ == int_v(u as int),
{
    Json::Num(
        JsonNum {
            int: if u <= 0x7fff_ffff_ffff_ffff {
                Some(u as i64)
            } else {
                None
            },
            uint: Some(u),
            text: dec_u64(u),
        },
    )
}

/// A number that is no integer, by its text.
pub fn json_real(text: &str) -> (j: Json)
    ensures
        j@ == real_v(text@),
{
    Json::Num(JsonNum { int: None, uint: None, text: text.to_owned() })
}

/// An array.
pub fn json_arr(a: Vec<Json>) -> (j: Json)
    ensures
        j@ == JsonV::Arr(jsons(a@)),
{
    proof {
        lemma_arr(a);
    }
    Json::Arr(a)
}

/// An object.
pub fn json_obj(o: Vec<(String, Json)>) -> (j: Json)
    ensures
        j@ == JsonV::Obj(members(o@)),
{
    proof {
        lemma_obj(o);
    }
    Json::Obj(o)
}

/// An object with one member.
pub fn json_obj1(key: &str, value: Json) -> (j: Json)
    ensures
        j@ == obj1(key@, value@),
{
    let mut o: Vec<(String, Json)> = Vec::new();
    o.push(member_of(key, value));
    assert(members(o@) == seq![(key@, value@)]);
    json_obj(o)
}

/// A named member of an object.
pub fn member_of(key: &str, value: Json) -> (m: (String, Json))
    ensures
        m.0@ == key@,
        m.1@ == value@,
{
    (key.to_owned(), value)
}

// ---- text ----

#[verifier::external_type_specification]
#[verifier::external_body]
pub struct ExValue(serde_json::Value);

#[verifier::external_type_specification]
#[verifier::external_body]
pub struct ExError(serde_json::Error);

/// What a `serde_json::Value` holds.
pub uninterp spec fn value_json(v: serde_json::Value) -> JsonV;

/// What `serde_json::from_str` makes of a text: a value, or the text of its error.
pub uninterp spec fn json_parsed(text: Seq<char>) -> Result<JsonV, Seq<char>>;

/// What `serde_json::from_slice` makes of bytes: a value, or the text of its error.
pub uninterp spec fn json_parsed_bytes(bytes: Seq<u8>) -> Result<JsonV, Seq<char>>;

/// The message of a `serde_json::Error`.
pub uninterp spec fn error_text(e: serde_json::Error) -> Seq<char>;

/// The members of the `serde_json::Map` that members are collected into.
pub uninterp spec fn collected(o: Seq<(Seq<char>, JsonV)>) -> Seq<(Seq<char>, JsonV)>;

/// The number that `Value::as_f64` makes of a value, as a value again; `None` where it makes
/// none.
pub uninterp spec fn as_real(j: JsonV) -> Option<JsonV>;

/// The value that a value becomes when `serde_json` takes it: a number becomes what its text
/// reads as, or null, and the members of an object are collected into a map.
pub open spec fn value_stored(j: JsonV) -> JsonV
    decreases j,
{
    match j {
        JsonV::Num(n) => parsed_or_null(n.text),
        JsonV::Arr(a) => JsonV::Arr(
            Seq::new(a.len(), |i: int| if 0 <= i < a.len() { value_stored(a[i]) } else { JsonV::Null }),
        ),
        JsonV::Obj(o) => JsonV::Obj(collected(members_stored(o))),
        _ => j,
    }
}

/// Members with the values that theirs become.
pub open spec fn members_stored(o: Seq<(Seq<char>, JsonV)>) -> Seq<(Seq<char>, JsonV)>
    decreases o,
{
    Seq::new(
        o.len(),
        |i: int|
            if 0 <= i < o.len() {
                (o[i].0, value_stored(o[i].1))
            } else {
                (Seq::empty(), JsonV::Null)
            },
    )
}

/// What the `Display` of `serde_json::Value` writes.
pub uninterp spec fn json_compact(j: JsonV) -> Seq<char>;

/// What `serde_json::to_string_pretty` writes.
pub uninterp spec fn json_pretty(j: JsonV) -> Seq<char>;

/// The text of the floating-point number that a JSON number stands for, where its text is a
/// number.
pub open spec fn real_text(text: Seq<char>) -> Option<Seq<char>> {
    match json_parsed(text) {
        Ok(v) => match as_real(v) {
            Some(JsonV::Num(n)) => Some(n.text),
            _ => None,
        },
        Err(_) => None,
    }
}

/// The text of a number as a floating-point number; that of zero where it is none.
pub open spec fn real_or_zero(v: Option<JsonV>) -> Seq<char> {
    match v {
        Some(JsonV::Num(n)) => match real_text(n.text) {
            Some(t) => t,
            None => "0.0"@,
        },
        _ => "0.0"@,
    }
}

/// A number that is written and read back unchanged: an integer, or `0.0`.
pub open spec fn plain_num(n: NumV) -> bool {
    ||| exists|i: int| i64::MIN <= i <= u64::MAX && JsonV::Num(n) == #[trigger] int_v(i)
    ||| JsonV::Num(n) == real_v("0.0"@)
}

/// The names stand in ascending order, each once.
pub open spec fn names_ascend(o: Seq<(Seq<char>, JsonV)>) -> bool {
    forall|i: int, j: int|
        0 <= i < j < o.len() ==> text_le((#[trigger] o[i]).0, (#[trigger] o[j]).0) && o[i].0 != o[j].0
}

/// A value that is written and read back unchanged: its numbers are plain, its objects'
/// names ascend, and it nests no deeper than `depth`.
pub open spec fn plain(j: JsonV, depth: nat) -> bool
    decreases j,
{
    match j {
        JsonV::Num(n) => plain_num(n),
        JsonV::Arr(a) => depth > 0 && forall|i: int| 0 <= i < a.len() ==> plain(#[trigger] a[i], (depth - 1) as nat),
        JsonV::Obj(o) => depth > 0 && names_ascend(o) && forall|i: int|
            0 <= i < o.len() ==> plain((#[trigger] o[i]).1, (depth - 1) as nat),
        _ => true,
    }
}

/// A text of the characters that numbers are written with.
pub open spec fn numeric(t: Seq<char>) -> bool {
    forall|i: int|
        0 <= i < t.len() ==> is_digit(#[trigger] t[i]) || t[i] == '.' || t[i] == '-' || t[i] == '+' || t[i] == 'e'
            || t[i] == 'E'
}

/// A number in decimal notation: digits, without a zero in front of others, with a dot and
/// more digits behind them or not, forty characters at most.
pub open spec fn decimal(t: Seq<char>) -> bool {
    &&& t.len() <= 40
    &&& match first_pos(t, '.') {
        Some(i) => all_digits(t.take(i)) && all_digits(t.skip(i + 1)) && (t[0] == '0' ==> i == 1),
        None => all_digits(t) && (t[0] == '0' ==> t.len() == 1),
    }
}

/// A value whose numbers are numeric, whose objects' names ascend, and which nests no deeper
/// than `depth`.
pub open spec fn orderly(j: JsonV, depth: nat) -> bool
    decreases j,
{
    match j {
        JsonV::Num(n) => numeric(n.text),
        JsonV::Arr(a) => depth > 0 && forall|i: int| 0 <= i < a.len() ==> orderly(#[trigger] a[i], (depth - 1) as nat),
        JsonV::Obj(o) => depth > 0 && names_ascend(o) && forall|i: int|
            0 <= i < o.len() ==> orderly((#[trigger] o[i]).1, (depth - 1) as nat),
        _ => true,
    }
}

/// A value that nests no deeper than `depth`.
pub open spec fn shallow(j: JsonV, depth: nat) -> bool
    decreases j,
{
    match j {
        JsonV::Arr(a) => depth > 0 && forall|i: int| 0 <= i < a.len() ==> shallow(#[trigger] a[i], (depth - 1) as nat),
        JsonV::Obj(o) => depth > 0 && forall|i: int|
            0 <= i < o.len() ==> shallow((#[trigger] o[i]).1, (depth - 1) as nat),
        _ => true,
    }
}

/// `a` is `b`, but for numbers that are not plain: in the place of such a one stands a number,
/// or null where it is not in decimal notation.
pub open spec fn alike(a: JsonV, b: JsonV) -> bool
    decreases b,
{
    match b {
        JsonV::Num(n) => if plain_num(n) {
            a == b
        } else {
            a is Num || (a is Null && !decimal(n.text))
        },
        JsonV::Arr(y) => {
            &&& a is Arr
            &&& a->Arr_0.len() == y.len()
            &&& forall|i: int| 0 <= i < y.len() ==> alike(a->Arr_0[i], #[trigger] y[i])
        },
        JsonV::Obj(y) => {
            &&& a is Obj
            &&& a->Obj_0.len() == y.len()
            &&& forall|i: int|
                0 <= i < y.len() ==> a->Obj_0[i].0 == (#[trigger] y[i]).0 && alike(a->Obj_0[i].1, y[i].1)
        },
        _ => a == b,
    }
}

/// `a` is `b`, but for numbers that are not plain: in the place of such a one stands a number.
pub open spec fn kept(a: JsonV, b: JsonV) -> bool
    decreases b,
{
    match b {
        JsonV::Num(n) => a is Num && (plain_num(n) ==> a == b),
        JsonV::Arr(y) => {
            &&& a is Arr
            &&& a->Arr_0.len() == y.len()
            &&& forall|i: int| 0 <= i < y.len() ==> kept(a->Arr_0[i], #[trigger] y[i])
        },
        JsonV::Obj(y) => {
            &&& a is Obj
            &&& a->Obj_0.len() == y.len()
            &&& forall|i: int|
                0 <= i < y.len() ==> a->Obj_0[i].0 == (#[trigger] y[i]).0 && kept(a->Obj_0[i].1, y[i].1)
        },
        _ => a == b,
    }
}

/// Reading `text` gives `j` again, but for numbers that are not plain.
pub open spec fn reads_kept(text: Seq<char>, j: JsonV) -> bool {
    json_parsed(text) is Ok && kept(json_parsed(text)->Ok_0, j)
}

/// Reading `text` gives a value that is like `j`.
pub open spec fn reads_alike(text: Seq<char>, j: JsonV) -> bool {
    json_parsed(text) is Ok && alike(json_parsed(text)->Ok_0, j)
}

proof fn lemma_alike_shallow(a: JsonV, b: JsonV, depth: nat)
    requires
        alike(a, b),
        orderly(b, depth),
    ensures
        shallow(a, depth),
    decreases b,
{
    match b {
        JsonV::Arr(y) => {
            let x = a->Arr_0;
            assert forall|i: int| 0 <= i < x.len() implies shallow(#[trigger] x[i], (depth - 1) as nat) by {
                assert(alike(x[i], y[i]) && orderly(y[i], (depth - 1) as nat));
                lemma_alike_shallow(x[i], y[i], (depth - 1) as nat);
            }
        },
        JsonV::Obj(y) => {
            let x = a->Obj_0;
            assert forall|i: int| 0 <= i < x.len() implies shallow((#[trigger] x[i]).1, (depth - 1) as nat) by {
                assert(x[i].0 == y[i].0);
                assert(orderly(y[i].1, (depth - 1) as nat));
                lemma_alike_shallow(x[i].1, y[i].1, (depth - 1) as nat);
            }
        },
        _ => {},
    }
}

proof fn lemma_kept_alike(a: JsonV, b: JsonV, c: JsonV)
    requires
        kept(a, b),
        alike(b, c),
    ensures
        alike(a, c),
    decreases c,
{
    match c {
        JsonV::Arr(z) => {
            let x = a->Arr_0;
            let y = b->Arr_0;
            assert forall|i: int| 0 <= i < z.len() implies alike(x[i], #[trigger] z[i]) by {
                assert(alike(y[i], z[i]));
                assert(kept(x[i], y[i]));
                lemma_kept_alike(x[i], y[i], z[i]);
            }
        },
        JsonV::Obj(z) => {
            let x = a->Obj_0;
            let y = b->Obj_0;
            assert forall|i: int| 0 <= i < z.len() implies x[i].0 == (#[trigger] z[i]).0 && alike(x[i].1, z[i].1) by {
                assert(y[i].0 == z[i].0);
                assert(x[i].0 == y[i].0);
                lemma_kept_alike(x[i].1, y[i].1, z[i].1);
            }
        },
        _ => {},
    }
}

/// Reading `text` gives `j`.
pub open spec fn reads_as(text: Seq<char>, j: JsonV) -> bool {
    json_parsed(text) == Ok::<JsonV, Seq<char>>(j)
}

/// Calls `serde_json::from_str`. Claimed: whether the text is JSON, which value it holds and
/// what the error says depend on the text alone. An integer in decimal reads as that integer,
/// and `0.0` as it stands. A text of the characters of numbers reads as a number if at all,
/// and one in decimal notation does.
#[verifier::external_body]
fn parse_value(text: &str) -> (r: Result<serde_json::Value, serde_json::Error>)
    ensures
        match r {
            Ok(v) => json_parsed(text@) == Ok::<JsonV, Seq<char>>(value_json(v)),
            Err(e) => json_parsed(text@) == Err::<JsonV, Seq<char>>(error_text(e)),
        },
        forall|i: int|
            i64::MIN <= i <= u64::MAX && text@ == #[trigger] dec(i) ==> r is Ok && value_json(r->Ok_0) == int_v(i),
        text@ == "0.0"@ ==> r is Ok && value_json(r->Ok_0) == real_v("0.0"@),
        numeric(text@) && r is Ok ==> value_json(r->Ok_0) is Num,
        decimal(text@) ==> r is Ok,
{
    serde_json::from_str::<serde_json::Value>(text)
}

/// Calls `serde_json::from_slice`. Claimed: whether the bytes are JSON, which value they hold
/// and what the error says depend on the bytes alone.
#[verifier::external_body]
fn parse_value_bytes(bytes: &Vec<u8>) -> (r: Result<serde_json::Value, serde_json::Error>)
    ensures
        match r {
            Ok(v) => json_parsed_bytes(bytes@) == Ok::<JsonV, Seq<char>>(value_json(v)),
            Err(e) => json_parsed_bytes(bytes@) == Err::<JsonV, Seq<char>>(error_text(e)),
        },
{
    serde_json::from_slice::<serde_json::Value>(bytes)
}

/// Calls the `Display` of `serde_json::Error`. Claimed: the result is the error's message.
#[verifier::external_body]
fn show_error(e: &serde_json::Error) -> (s: String)
    ensures
        s@ == error_text(*e),
{
    e.to_string()
}

/// Takes a `serde_json::Value` apart, variant by variant: a number by `Number::as_i64`,
/// `Number::as_u64` and its `Display`, an object member by member in the map's order.
/// Claimed: the result holds what the value holds.
#[verifier::external_body]
fn from_value(v: serde_json::Value) -> (j: Json)
    ensures
        j@ == value_json(v),
{
    match v {
        serde_json::Value::Null => Json::Null,
        serde_json::Value::Bool(b) => Json::Bool(b),
        serde_json::Value::Number(n) => Json::Num(JsonNum { int: n.as_i64(), uint: n.as_u64(), text: n.to_string() }),
        serde_json::Value::String(s) => Json::Str(s),
        serde_json::Value::Array(a) => Json::Arr(a.into_iter().map(from_value).collect()),
        serde_json::Value::Object(m) => Json::Obj(m.into_iter().map(|(k, x)| (k, from_value(x))).collect()),
    }
}

/// A value, of which `serde_json` holds the parts already.
enum Part {
    Null,
    Bool(bool),
    Str(String),
    Arr(Vec<serde_json::Value>),
}

/// What a part holds.
spec fn part_json(p: Part) -> JsonV {
    match p {
        Part::Null => JsonV::Null,
        Part::Bool(b) => JsonV::Bool(b),
        Part::Str(s) => JsonV::Str(s@),
        Part::Arr(a) => JsonV::Arr(Seq::new(a@.len(), |i: int| value_json(a@[i]))),
    }
}

/// Makes a `serde_json::Value` by its variants. Claimed: it holds what the part holds.
#[verifier::external_body]
fn part_value(p: Part) -> (v: serde_json::Value)
    ensures
        value_json(v) == part_json(p),
{
    match p {
        Part::Null => serde_json::Value::Null,
        Part::Bool(b) => serde_json::Value::Bool(b),
        Part::Str(s) => serde_json::Value::String(s),
        Part::Arr(a) => serde_json::Value::Array(a),
    }
}

/// What members hold.
spec fn pairs_json(o: Seq<(String, serde_json::Value)>) -> Seq<(Seq<char>, JsonV)> {
    Seq::new(o.len(), |i: int| (o[i].0@, value_json(o[i].1)))
}

/// Collects members into a `serde_json::Map`. Claimed: the result depends on the members
/// alone, and members whose names ascend are kept as they are.
#[verifier::external_body]
fn map_value(o: Vec<(String, serde_json::Value)>) -> (v: serde_json::Value)
    ensures
        value_json(v) == JsonV::Obj(collected(pairs_json(o@))),
        names_ascend(pairs_json(o@)) ==> value_json(v) == JsonV::Obj(pairs_json(o@)),
{
    serde_json::Value::Object(o.into_iter().collect())
}

/// The `serde_json::Value` that a number's text reads as, or null.
fn number_value(n: &JsonNum) -> (v: serde_json::Value)
    ensures
        value_json(v) == parsed_or_null(n@.text),
        plain_num(n@) ==> value_json(v) == JsonV::Num(n@),
        numeric(n@.text) ==> alike(value_json(v), JsonV::Num(n@)),
{
    let r = parse_value(n.text.as_str());
    proof {
        if plain_num(n@) && JsonV::Num(n@) != real_v("0.0"@) {
            let i = choose|i: int| i64::MIN <= i <= u64::MAX && JsonV::Num(n@) == #[trigger] int_v(i);
            assert(n@.text == dec(i));
        }
    }
    match r {
        Ok(v) => v,
        Err(_) => part_value(Part::Null),
    }
}

/// The `serde_json::Value` that a value becomes. A plain value is kept as it is; of an orderly
/// one all is kept but numbers that are not plain.
fn to_value(j: &Json) -> (v: serde_json::Value)
    ensures
        value_json(v) == value_stored(j@),
        forall|d: nat| #[trigger] plain(j@, d) ==> value_json(v) == j@,
        forall|d: nat| #[trigger] orderly(j@, d) ==> alike(value_json(v), j@),
    decreases j,
{
    match j {
        Json::Null => part_value(Part::Null),
        Json::Bool(b) => part_value(Part::Bool(*b)),
        Json::Num(n) => number_value(n),
        Json::Str(s) => part_value(Part::Str(s.clone())),
        Json::Arr(a) => {
            let mut r: Vec<serde_json::Value> = Vec::new();
            let mut i: usize = 0;
            while i < a.len()
                invariant
                    j == Json::Arr(*a),
                    i <= a.len(),
                    r.len() == i,
                    forall|k: int|
                        0 <= k < i ==> {
                            &&& value_json(#[trigger] r@[k]) == value_stored(a@[k]@)
                            &&& forall|d: nat| #[trigger] plain(a@[k]@, d) ==> value_json(r@[k]) == a@[k]@
                            &&& forall|d: nat| #[trigger] orderly(a@[k]@, d) ==> alike(value_json(r@[k]), a@[k]@)
                        },
                decreases a.len() - i,
            {
                assert(decreases_to!(j => j->Arr_0));
                assert(decreases_to!(j->Arr_0 => j->Arr_0@));
                assert(decreases_to!(j->Arr_0@ => j->Arr_0@[i as int]));
                r.push(to_value(&a[i]));
                i = i + 1;
            }
            let ghost done = r@;
            let v = part_value(Part::Arr(r));
            proof {
                lemma_arr(*a);
                let y = jsons(a@);
                let x = value_json(v)->Arr_0;
                assert forall|k: int| 0 <= k < x.len() implies #[trigger] x[k] == value_json(done[k]) && y[k]
                    == a@[k]@ by {}
                assert(value_json(v)->Arr_0 == value_stored(j@)->Arr_0);
                assert forall|d: nat| #[trigger] plain(j@, d) implies value_json(v) == j@ by {
                    assert forall|k: int| 0 <= k < y.len() implies x[k] == #[trigger] y[k] by {
                        assert(plain(y[k], (d - 1) as nat));
                        assert(x[k] == value_json(done[k]));
                    }
                    assert(x == y);
                }
                assert forall|d: nat| #[trigger] orderly(j@, d) implies alike(value_json(v), j@) by {
                    assert forall|k: int| 0 <= k < y.len() implies alike(x[k], #[trigger] y[k]) by {
                        assert(orderly(y[k], (d - 1) as nat));
                        assert(x[k] == value_json(done[k]));
                    }
                }
            }
            v
        },
        Json::Obj(o) => {
            let mut r: Vec<(String, serde_json::Value)> = Vec::new();
            let mut i: usize = 0;
            while i < o.len()
                invariant
                    j == Json::Obj(*o),
                    i <= o.len(),
                    r.len() == i,
                    forall|k: int|
                        0 <= k < i ==> {
                            &&& (#[trigger] r@[k]).0@ == o@[k].0@
                            &&& value_json(r@[k].1) == value_stored(o@[k].1@)
                            &&& forall|d: nat| #[trigger] plain(o@[k].1@, d) ==> value_json(r@[k].1) == o@[k].1@
                            &&& forall|d: nat| #[trigger] orderly(o@[k].1@, d) ==> alike(value_json(r@[k].1), o@[k].1@)
                        },
                decreases o.len() - i,
            {
                assert(decreases_to!(j => j->Obj_0));
                assert(decreases_to!(j->Obj_0 => j->Obj_0@));
                assert(decreases_to!(j->Obj_0@ => j->Obj_0@[i as int]));
                assert(decreases_to!(j->Obj_0@[i as int] => j->Obj_0@[i as int].1));
                r.push((o[i].0.clone(), to_value(&o[i].1)));
                i = i + 1;
            }
            let ghost done = r@;
            let v = map_value(r);
            proof {
                lemma_obj(*o);
                let y = members(o@);
                let x = pairs_json(done);
                assert forall|k: int| 0 <= k < x.len() implies (#[trigger] x[k]).0 == y[k].0 && x[k].1 == value_json(
                    done[k].1,
                ) && y[k].1 == o@[k].1@ && x[k].1 == value_stored(y[k].1) by {
                    assert(done[k].0@ == o@[k].0@);
                }
                assert(x == members_stored(y));
                assert forall|d: nat| #[trigger] plain(j@, d) implies value_json(v) == j@ by {
                    assert forall|k: int| 0 <= k < y.len() implies x[k] == #[trigger] y[k] by {
                        assert(plain(y[k].1, (d - 1) as nat));
                        assert(x[k].0 == y[k].0);
                    }
                    assert(x == y);
                }
                assert forall|d: nat| #[trigger] orderly(j@, d) implies alike(value_json(v), j@) by {
                    assert(names_ascend(x)) by {
                        assert forall|a: int, b: int| 0 <= a < b < x.len() implies text_le(
                            (#[trigger] x[a]).0,
                            (#[trigger] x[b]).0,
                        ) && x[a].0 != x[b].0 by {
                            assert(x[a].0 == y[a].0 && x[b].0 == y[b].0);
                        }
                    }
                    assert forall|k: int| 0 <= k < y.len() implies x[k].0 == (#[trigger] y[k]).0 && alike(
                        x[k].1,
                        y[k].1,
                    ) by {
                        assert(orderly(y[k].1, (d - 1) as nat));
                        assert(x[k].0 == y[k].0);
                    }
                }
            }
            v
        },
    }
}

/// Calls the `Display` of `serde_json::Value`. Claimed: the text depends on what the value
/// holds alone, and `serde_json::from_str` reads a plain value back from it, and from that of
/// a shallow one all but the numbers that are not plain.
#[verifier::external_body]
fn value_text(v: &serde_json::Value) -> (s: String)
    ensures
        s@ == json_compact(value_json(*v)),
        plain(value_json(*v), 100) ==> reads_as(s@, value_json(*v)),
        shallow(value_json(*v), 100) ==> reads_kept(s@, value_json(*v)),
{
    v.to_string()
}

/// Calls `serde_json::to_string_pretty`. Claimed: the text depends on what the value holds
/// alone, and `serde_json::from_str` reads a plain value back from it, and from that of a
/// shallow one all but the numbers that are not plain.
#[verifier::external_body]
fn value_text_pretty(v: &serde_json::Value) -> (s: String)
    ensures
        s@ == json_pretty(value_json(*v)),
        plain(value_json(*v), 100) ==> reads_as(s@, value_json(*v)),
        shallow(value_json(*v), 100) ==> reads_kept(s@, value_json(*v)),
{
    serde_json::to_string_pretty(v).unwrap_or_default()
}

/// Calls `Value::as_f64`, and makes a `Value` of the number. Claimed: the result depends on
/// what the value holds alone; it is a number, whose text is made of the characters of
/// numbers; that of `0.0` is `0.0`.
#[verifier::external_body]
fn real_value(v: &serde_json::Value) -> (r: Option<serde_json::Value>)
    ensures
        match r {
            Some(x) => as_real(value_json(*v)) == Some(value_json(x)),
            None => as_real(value_json(*v)) is None,
        },
        r is Some ==> value_json(r->0) is Num && numeric(value_json(r->0)->Num_0.text),
        value_json(*v) == real_v("0.0"@) ==> r is Some && value_json(r->0) == real_v("0.0"@),
{
    v.as_f64().map(serde_json::Value::from)
}

fn real_text_of(text: &str) -> (r: Option<String>)
    ensures
        opt_view(r) == real_text(text@),
        text@ == "0.0"@ ==> opt_view(r) == Some("0.0"@),
        r is Some ==> numeric(r->0@),
{
    match parse_value(text) {
        Ok(v) => match real_value(&v) {
            Some(x) => match from_value(x) {
                Json::Num(n) => Some(n.text),
                _ => None,
            },
            None => None,
        },
        Err(_) => None,
    }
}

/// The text of a number as a floating-point number; that of zero where it is none.
pub fn real_or_zero_of(v: Option<&Json>) -> (r: String)
    ensures
        r@ == real_or_zero(opt_json(v)),
        numeric(r@),
        opt_json(v) == Some(real_v("0.0"@)) ==> real_text("0.0"@) == Some("0.0"@),
{
    proof {
        reveal_strlit("0.0");
    }
    match v {
        Some(Json::Num(n)) => match real_text_of(n.text.as_str()) {
            Some(t) => t,
            None => "0.0".to_owned(),
        },
        _ => "0.0".to_owned(),
    }
}

/// Reads a JSON text.
pub fn parse(text: &str) -> (r: Result<Json, String>)
    ensures
        match r {
            Ok(j) => json_parsed(text@) == Ok::<JsonV, Seq<char>>(j@),
            Err(e) => json_parsed(text@) == Err::<JsonV, Seq<char>>(e@),
        },
{
    match parse_value(text) {
        Ok(v) => Ok(from_value(v)),
        Err(e) => Err(show_error(&e)),
    }
}

/// Reads JSON from bytes.
pub fn parse_bytes(bytes: &Vec<u8>) -> (r: Result<Json, String>)
    ensures
        match r {
            Ok(j) => json_parsed_bytes(bytes@) == Ok::<JsonV, Seq<char>>(j@),
            Err(e) => json_parsed_bytes(bytes@) == Err::<JsonV, Seq<char>>(e@),
        },
{
    match parse_value_bytes(bytes) {
        Ok(v) => Ok(from_value(v)),
        Err(e) => Err(show_error(&e)),
    }
}

/// The value a text holds, or null where it is no JSON.
pub open spec fn parsed_or_null(text: Seq<char>) -> JsonV {
    match json_parsed(text) {
        Ok(v) => v,
        Err(_) => JsonV::Null,
    }
}

/// Reads a JSON text; null where it is none.
pub fn parse_or_null(text: &str) -> (j: Json)
    ensures
        j@ == parsed_or_null(text@),
{
    match parse(text) {
        Ok(j) => j,
        Err(_) => Json::Null,
    }
}

/// Writes a value in one line. A plain value reads back as it was, an orderly one but for
/// its numbers.
pub fn render(j: &Json) -> (s: String)
    ensures
        s@ == json_compact(value_stored(j@)),
        plain(j@, 100) ==> reads_as(s@, j@),
        orderly(j@, 100) ==> reads_alike(s@, j@),
{
    let v = to_value(j);
    let s = value_text(&v);
    proof {
        if orderly(j@, 100) {
            lemma_alike_shallow(value_json(v), j@, 100);
            lemma_kept_alike(json_parsed(s@)->Ok_0, value_json(v), j@);
        }
    }
    s
}

/// Writes a value over several lines. A plain value reads back as it was, an orderly one but
/// for its numbers.
pub fn render_pretty(j: &Json) -> (s: String)
    ensures
        s@ == json_pretty(value_stored(j@)),
        plain(j@, 100) ==> reads_as(s@, j@),
        orderly(j@, 100) ==> reads_alike(s@, j@),
{
    let v = to_value(j);
    let s = value_text_pretty(&v);
    proof {
        if orderly(j@, 100) {
            lemma_alike_shallow(value_json(v), j@, 100);
            lemma_kept_alike(json_parsed(s@)->Ok_0, value_json(v), j@);
        }
    }
    s
}

// ---- laws ----

/// A member is found by its name: the first of that name counts, and no other name is taken for
/// it.
pub proof fn law_member_goes_by_its_name(o: Seq<(Seq<char>, JsonV)>, key: Seq<char>)
    ensures
        match member(o, key) {
            Some(v) => exists|i: int|
                0 <= i < o.len() && #[trigger] o[i] == (key, v) && forall|j: int| 0 <= j < i ==> (#[trigger] o[j]).0 != key,
            None => forall|j: int| 0 <= j < o.len() ==> (#[trigger] o[j]).0 != key,
        },
        JsonV::Obj(o).get(key) == member(o, key),
    decreases o.len(),
{
    if o.len() > 0 {
        let f = o.drop_last();
        law_member_goes_by_its_name(f, key);
        match member(f, key) {
            Some(v) => {
                let i = choose|i: int|
                    0 <= i < f.len() && #[trigger] f[i] == (key, v) && forall|j: int| 0 <= j < i ==> (#[trigger] f[j]).0 != key;
                assert(o[i] == (key, v));
                assert forall|j: int| 0 <= j < i implies (#[trigger] o[j]).0 != key by {
                    assert(f[j] == o[j]);
                }
            },
            None => {
                let n = o.len() - 1;
                assert forall|j: int| 0 <= j < n implies (#[trigger] o[j]).0 != key by {
                    assert(f[j] == o[j]);
                }
                if o.last().0 == key {
                    assert(o[n] == (key, o.last().1));
                }
            },
        }
    }
}

/// A value is looked at as what it is: a text as a text, a number as a number, a truth value as
/// one, a list as its elements; as anything else it is nothing.
pub proof fn law_values_are_what_they_are(s: Seq<char>, b: bool, a: Seq<JsonV>, i: int)
    requires
        i64::MIN <= i <= i64::MAX,
    ensures
        JsonV::Str(s).as_str() == Some(s),
        JsonV::Bool(b).as_bool() == Some(b),
        JsonV::Arr(a).as_arr() == Some(a) && JsonV::Arr(a).items() == a,
        int_v(i).as_i64() == Some(i as i64),
        i >= 0 ==> int_v(i).as_u64() == Some(i as u64),
        i < 0 ==> int_v(i).as_u64() is None,
        JsonV::Str(s).as_i64() is None && JsonV::Str(s).as_bool() is None && JsonV::Str(s).items().len() == 0,
        JsonV::Bool(b).as_str() is None && JsonV::Null.as_str() is None && int_v(i).as_str() is None,
        JsonV::Null.get(s) is None && JsonV::Arr(a).get(s) is None && JsonV::Str(s).get(s) is None,
        int_v(i) matches JsonV::Num(n) && n.text == dec(i),
{
}

/// The texts of a list are those of its elements that are texts, in their order.
pub proof fn law_texts_of_a_list(a: Seq<JsonV>, s: Seq<char>, v: JsonV)
    ensures
        texts(a.push(JsonV::Str(s))) == texts(a).push(s),
        !(v is Str) ==> texts(a.push(v)) == texts(a),
        texts(Seq::empty()).len() == 0,
{
    assert(a.push(JsonV::Str(s)).drop_last() =~= a);
    assert(a.push(v).drop_last() =~= a);
}

/// An object of one member gives that member's value under its name, and none under another.
pub proof fn law_single_member(k: Seq<char>, v: JsonV, other: Seq<char>)
    ensures
        obj1(k, v).get(k) == Some(v),
        other != k ==> obj1(k, v).get(other) is None,
{
    reveal_with_fuel(member, 2);
}

} // verus!
