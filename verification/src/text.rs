//! Text, modelled as sequences of characters.
//!
//! Every operation here has an exact meaning over `Seq<char>`; the executable
//! functions work on `&str` and hand back owned text.

use vstd::prelude::*;

verus! {

broadcast use vstd::seq_lib::group_to_multiset_ensures;

// ---- what the Unicode tables of the standard library decide ----

/// What `str::to_lowercase` makes of a text that is not all ASCII.
pub uninterp spec fn unicode_lower(s: Seq<char>) -> Seq<char>;

/// What `str::to_uppercase` makes of a text that is not all ASCII.
pub uninterp spec fn unicode_upper(s: Seq<char>) -> Seq<char>;

/// Whether `char::is_alphanumeric` holds of a character beyond ASCII.
pub uninterp spec fn unicode_alnum(c: char) -> bool;

/// Whether `char::is_numeric` holds of a character beyond ASCII.
pub uninterp spec fn unicode_numeral(c: char) -> bool;

/// What `String::from_utf8_lossy` makes of bytes that are not valid UTF-8.
pub uninterp spec fn repaired(bytes: Seq<u8>) -> Seq<char>;

/// An ASCII letter in its lower-case form; any other character unchanged.
pub open spec fn ascii_lower(c: char) -> char {
    if 'A' <= c <= 'Z' {
        ((c as u32 + 32) as u32) as char
    } else {
        c
    }
}

/// An ASCII letter in its upper-case form; any other character unchanged.
pub open spec fn ascii_upper(c: char) -> char {
    if 'a' <= c <= 'z' {
        ((c as u32 - 32) as u32) as char
    } else {
        c
    }
}

/// An ASCII digit.
pub open spec fn ascii_digit(c: char) -> bool {
    '0' <= c <= '9'
}

/// An ASCII letter or digit.
pub open spec fn ascii_word(c: char) -> bool {
    ascii_digit(c) || 'A' <= c <= 'Z' || 'a' <= c <= 'z'
}

/// An ASCII character.
pub open spec fn is_ascii(c: char) -> bool {
    (c as u32) < 128
}

/// `s` holds ASCII characters only.
pub open spec fn all_ascii(s: Seq<char>) -> bool {
    forall|i: int| 0 <= i < s.len() ==> is_ascii(#[trigger] s[i])
}

/// A text in lower case.
pub open spec fn lower(s: Seq<char>) -> Seq<char> {
    if all_ascii(s) {
        s.map_values(|c: char| ascii_lower(c))
    } else {
        unicode_lower(s)
    }
}

/// A text in upper case.
pub open spec fn upper(s: Seq<char>) -> Seq<char> {
    if all_ascii(s) {
        s.map_values(|c: char| ascii_upper(c))
    } else {
        unicode_upper(s)
    }
}

/// A letter or a number.
pub open spec fn is_alnum(c: char) -> bool {
    if is_ascii(c) {
        ascii_word(c)
    } else {
        unicode_alnum(c)
    }
}

/// A number's character.
pub open spec fn is_numeral(c: char) -> bool {
    if is_ascii(c) {
        ascii_digit(c)
    } else {
        unicode_numeral(c)
    }
}

/// Bytes as text: decoded where they are valid UTF-8, else repaired.
pub open spec fn lossy(bytes: Seq<u8>) -> Seq<char> {
    if vstd::utf8::valid_utf8(bytes) {
        vstd::utf8::decode_utf8(bytes)
    } else {
        repaired(bytes)
    }
}

/// White space: the characters that have the Unicode property `White_Space`.
pub open spec fn is_space(c: char) -> bool {
    let n = c as u32;
    ||| 0x09 <= n <= 0x0d
    ||| n == 0x20
    ||| n == 0x85
    ||| n == 0xa0
    ||| n == 0x1680
    ||| 0x2000 <= n <= 0x200a
    ||| n == 0x2028
    ||| n == 0x2029
    ||| n == 0x202f
    ||| n == 0x205f
    ||| n == 0x3000
}

/// Calls `str::to_lowercase`. Claimed: on an ASCII text it maps `A`..`Z` to `a`..`z` and keeps
/// every other character; on any other the result depends on the text alone.
#[verifier::external_body]
pub(crate) fn lowered(s: &str) -> (r: String)
    ensures
        r@ == lower(s@),
        !all_ascii(s@) ==> r@ == unicode_lower(s@),
{
    s.to_lowercase()
}

/// Calls `str::to_uppercase`. Claimed: on an ASCII text it maps `a`..`z` to `A`..`Z` and keeps
/// every other character; on any other the result depends on the text alone.
#[verifier::external_body]
pub(crate) fn uppered(s: &str) -> (r: String)
    ensures
        r@ == upper(s@),
        !all_ascii(s@) ==> r@ == unicode_upper(s@),
{
    s.to_uppercase()
}

/// Calls `String::from_utf8_lossy`. Claimed: bytes that are valid UTF-8 are decoded; of any
/// others the text depends on the bytes alone.
#[verifier::external_body]
pub(crate) fn lossy_text(bytes: &Vec<u8>) -> (r: String)
    ensures
        r@ == lossy(bytes@),
        !vstd::utf8::valid_utf8(bytes@) ==> r@ == repaired(bytes@),
{
    String::from_utf8_lossy(bytes).into_owned()
}

/// `char::is_whitespace`. Claimed: it holds of the characters with the Unicode property
/// `White_Space`.
pub assume_specification[ char::is_whitespace ](c: char) -> (b: bool)
    ensures
        b == is_space(c),
;

/// `char::is_alphanumeric`. Claimed: of the ASCII characters exactly the letters and digits
/// are alphanumeric; of any other the answer depends on the character alone.
pub assume_specification[ char::is_alphanumeric ](c: char) -> (b: bool)
    ensures
        b == is_alnum(c),
        !is_ascii(c) ==> b == unicode_alnum(c),
;

/// `char::is_numeric`. Claimed: of the ASCII characters exactly the digits are numeric; of any
/// other the answer depends on the character alone.
pub assume_specification[ char::is_numeric ](c: char) -> (b: bool)
    ensures
        b == is_numeral(c),
        !is_ascii(c) ==> b == unicode_numeral(c),
;

/// `String::push`. Claimed: the character is appended.
pub assume_specification[ String::push ](s: &mut String, c: char)
    ensures
        final(s)@ == old(s)@.push(c),
;

// ---- between strings and characters ----

/// The texts that a list of strings holds.
pub open spec fn views(v: Seq<String>) -> Seq<Seq<char>> {
    Seq::new(v.len(), |i: int| v[i]@)
}

/// The text of an optional string.
pub open spec fn opt_view(o: Option<String>) -> Option<Seq<char>> {
    match o {
        Some(s) => Some(s@),
        None => None,
    }
}

/// The text of an optional borrowed string.
pub open spec fn opt_str(o: Option<&str>) -> Option<Seq<char>> {
    match o {
        Some(s) => Some(s@),
        None => None,
    }
}

/// The texts of a result.
pub open spec fn res_view(r: Result<String, String>) -> Result<Seq<char>, Seq<char>> {
    match r {
        Ok(s) => Ok(s@),
        Err(e) => Err(e@),
    }
}

/// The characters of `s`, in order.
pub fn chars_of(s: &str) -> (v: Vec<char>)
    ensures
        v@ == s@,
{
    let mut v: Vec<char> = Vec::new();
    for c in it: s.chars()
        invariant
            it.seq() == s@,
            v@ == s@.take(it.index() as int),
    {
        v.push(c);
    }
    v
}

/// The text made of the given characters.
pub fn text_of(v: &Vec<char>) -> (s: String)
    ensures
        s@ == v@,
{
    let mut s = String::new();
    for i in 0..v.len()
        invariant
            s@ == v@.take(i as int),
    {
        s.push(v[i]);
    }
    assert(v@.take(v.len() as int) == v@);
    s
}

/// The characters `from..to` as a text.
pub fn slice_of(v: &Vec<char>, from: usize, to: usize) -> (s: String)
    requires
        from <= to <= v.len(),
    ensures
        s@ == v@.subrange(from as int, to as int),
{
    let mut s = String::new();
    for i in from..to
        invariant
            from <= i <= to <= v.len(),
            s@ == v@.subrange(from as int, i as int),
    {
        s.push(v[i]);
        assert(v@.subrange(from as int, i + 1) == v@.subrange(from as int, i as int).push(v@[i as int]));
    }
    s
}

/// Whether two texts are equal.
pub fn same(a: &str, b: &str) -> (r: bool)
    ensures
        r == (a@ == b@),
{
    a.to_owned() == b.to_owned()
}

/// Whether an optional text is present and equal to `b`.
pub fn is_text(a: Option<&str>, b: &str) -> (r: bool)
    ensures
        r == (opt_str(a) == Some(b@)),
{
    match a {
        Some(x) => same(x, b),
        None => false,
    }
}

/// Whether the list holds the text.
pub open spec fn holds(v: Seq<Seq<char>>, s: Seq<char>) -> bool {
    exists|i: int| 0 <= i < v.len() && v[i] == s
}

/// Whether `list` holds `s`.
pub fn list_has(list: &Vec<String>, s: &str) -> (r: bool)
    ensures
        r == holds(views(list@), s@),
{
    for i in 0..list.len()
        invariant
            forall|j: int| 0 <= j < i ==> list@[j]@ != s@,
    {
        if same(list[i].as_str(), s) {
            assert(views(list@)[i as int] == s@);
            return true;
        }
    }
    assert forall|j: int| 0 <= j < views(list@).len() implies views(list@)[j] != s@ by {
        assert(list@[j]@ != s@);
    }
    false
}

/// A copy of an optional text.
pub fn opt_copy(o: &Option<String>) -> (r: Option<String>)
    ensures
        opt_view(r) == opt_view(*o),
{
    match o {
        Some(s) => Some(s.clone()),
        None => None,
    }
}

/// A borrowed view of an optional text.
pub fn opt_as_str(o: &Option<String>) -> (r: Option<&str>)
    ensures
        opt_str(r) == opt_view(*o),
{
    match o {
        Some(s) => Some(s.as_str()),
        None => None,
    }
}

/// A copy of a list of texts.
pub fn copy_list(v: &Vec<String>) -> (r: Vec<String>)
    ensures
        views(r@) == views(v@),
{
    let mut r: Vec<String> = Vec::new();
    for i in 0..v.len()
        invariant
            r.len() == i,
            forall|j: int| 0 <= j < i ==> r@[j]@ == v@[j]@,
    {
        r.push(v[i].clone());
    }
    assert(views(r@) == views(v@));
    r
}

/// The list without its first `from` texts, copied.
pub fn copy_tail(v: &Vec<String>, from: usize) -> (r: Vec<String>)
    requires
        from <= v.len(),
    ensures
        views(r@) == views(v@).skip(from as int),
{
    let mut r: Vec<String> = Vec::new();
    for i in from..v.len()
        invariant
            from <= i <= v.len(),
            r.len() == i - from,
            forall|j: int| 0 <= j < r.len() ==> r@[j]@ == v@[j + from]@,
    {
        r.push(v[i].clone());
    }
    assert(views(r@) == views(v@).skip(from as int));
    r
}

// ---- concatenation ----

/// `a` followed by `b`.
pub fn cat2(a: &str, b: &str) -> (r: String)
    ensures
        r@ == a@ + b@,
{
    let mut r = a.to_owned();
    r.append(b);
    r
}

/// Three texts in a row.
pub fn cat3(a: &str, b: &str, c: &str) -> (r: String)
    ensures
        r@ == a@ + b@ + c@,
{
    let mut r = cat2(a, b);
    r.append(c);
    r
}

/// Four texts in a row.
pub fn cat4(a: &str, b: &str, c: &str, d: &str) -> (r: String)
    ensures
        r@ == a@ + b@ + c@ + d@,
{
    let mut r = cat3(a, b, c);
    r.append(d);
    r
}

/// Five texts in a row.
pub fn cat5(a: &str, b: &str, c: &str, d: &str, e: &str) -> (r: String)
    ensures
        r@ == a@ + b@ + c@ + d@ + e@,
{
    let mut r = cat4(a, b, c, d);
    r.append(e);
    r
}

/// Six texts in a row.
pub fn cat6(a: &str, b: &str, c: &str, d: &str, e: &str, f: &str) -> (r: String)
    ensures
        r@ == a@ + b@ + c@ + d@ + e@ + f@,
{
    let mut r = cat5(a, b, c, d, e);
    r.append(f);
    r
}

/// Seven texts in a row.
pub fn cat7(a: &str, b: &str, c: &str, d: &str, e: &str, f: &str, g: &str) -> (r: String)
    ensures
        r@ == a@ + b@ + c@ + d@ + e@ + f@ + g@,
{
    let mut r = cat6(a, b, c, d, e, f);
    r.append(g);
    r
}

/// Texts joined by a separator.
pub open spec fn join(parts: Seq<Seq<char>>, sep: Seq<char>) -> Seq<char>
    decreases parts.len(),
{
    if parts.len() == 0 {
        Seq::empty()
    } else if parts.len() == 1 {
        parts[0]
    } else {
        join(parts.drop_last(), sep) + sep + parts.last()
    }
}

/// Joins the texts of a list.
pub fn joined(parts: &Vec<String>, sep: &str) -> (r: String)
    ensures
        r@ == join(views(parts@), sep@),
{
    let mut r = String::new();
    for i in 0..parts.len()
        invariant
            r@ == join(views(parts@).take(i as int), sep@),
    {
        if i > 0 {
            r.append(sep);
        }
        r.append(parts[i].as_str());
        let ghost next = views(parts@).take(i + 1);
        assert(next.drop_last() == views(parts@).take(i as int));
        assert(next.last() == parts@[i as int]@);
    }
    assert(views(parts@).take(parts.len() as int) == views(parts@));
    r
}

// ---- trimming ----

/// `s` without its leading white space.
pub open spec fn trim_start(s: Seq<char>) -> Seq<char>
    decreases s.len(),
{
    if s.len() > 0 && is_space(s[0]) {
        trim_start(s.skip(1))
    } else {
        s
    }
}

/// `s` without its trailing white space.
pub open spec fn trim_end(s: Seq<char>) -> Seq<char>
    decreases s.len(),
{
    if s.len() > 0 && is_space(s.last()) {
        trim_end(s.drop_last())
    } else {
        s
    }
}

/// `s` without white space at either end.
pub open spec fn trim(s: Seq<char>) -> Seq<char> {
    trim_end(trim_start(s))
}

/// Trimming once is enough.
pub proof fn law_trim_twice(s: Seq<char>)
    ensures
        trim(trim(s)) == trim(s),
{
    lemma_trim_start(s);
    lemma_trim_end(trim_start(s));
}

proof fn lemma_trim_start(s: Seq<char>)
    ensures
        trim_start(s).len() > 0 ==> !is_space(trim_start(s)[0]),
    decreases s.len(),
{
    if s.len() > 0 && is_space(s[0]) {
        lemma_trim_start(s.skip(1));
    }
}

proof fn lemma_trim_end(s: Seq<char>)
    ensures
        trim_end(s).len() > 0 ==> !is_space(trim_end(s).last()) && trim_end(s)[0] == s[0],
    decreases s.len(),
{
    if s.len() > 0 && is_space(s.last()) {
        lemma_trim_end(s.drop_last());
    }
}

/// Nothing but white space.
pub open spec fn blank(s: Seq<char>) -> bool {
    trim(s).len() == 0
}

/// `s` without the characters of `cut` at its end.
pub open spec fn trim_end_of(s: Seq<char>, cut: spec_fn(char) -> bool) -> Seq<char>
    decreases s.len(),
{
    if s.len() > 0 && cut(s.last()) {
        trim_end_of(s.drop_last(), cut)
    } else {
        s
    }
}

/// Removes white space at both ends.
pub fn trimmed(s: &str) -> (r: String)
    ensures
        r@ == trim(s@),
{
    let v = chars_of(s);
    let mut a: usize = 0;
    let n: usize = v.len();
    proof {
        assert(v@.skip(0) == v@);
    }
    while a < n && v[a].is_whitespace()
        invariant
            a <= n == v.len(),
            trim_start(v@) == trim_start(v@.skip(a as int)),
        ensures
            a <= n,
            trim_start(v@) == v@.skip(a as int),
        decreases n - a,
    {
        proof {
            assert(v@.skip(a as int).skip(1) == v@.skip(a + 1));
        }
        a = a + 1;
    }
    let mut b: usize = n;
    proof {
        assert(v@.subrange(a as int, n as int) == v@.skip(a as int));
    }
    while b > a && v[b - 1].is_whitespace()
        invariant
            a <= b <= n == v.len(),
            trim(v@) == trim_end(v@.subrange(a as int, b as int)),
        ensures
            a <= b <= n,
            trim(v@) == v@.subrange(a as int, b as int),
        decreases b,
    {
        proof {
            assert(v@.subrange(a as int, b as int).drop_last() == v@.subrange(a as int, b - 1));
        }
        b = b - 1;
    }
    slice_of(&v, a, b)
}

/// Whether nothing but white space is there.
pub fn is_blank(s: &str) -> (r: bool)
    ensures
        r == blank(s@),
{
    trimmed(s).as_str().is_empty()
}

// ---- searching ----

/// `sub` stands in `s` at position `i`.
pub open spec fn at(s: Seq<char>, sub: Seq<char>, i: int) -> bool {
    0 <= i && i + sub.len() <= s.len() && s.subrange(i, i + sub.len()) == sub
}

/// `s` begins with `p`.
pub open spec fn starts(s: Seq<char>, p: Seq<char>) -> bool {
    at(s, p, 0)
}

/// `s` ends with `p`.
pub open spec fn ends(s: Seq<char>, p: Seq<char>) -> bool {
    at(s, p, s.len() - p.len())
}

/// The first position at or after `from` where `sub` stands in `s`.
pub open spec fn find_from(s: Seq<char>, sub: Seq<char>, from: int) -> Option<int>
    decreases s.len() - from + 1,
{
    if from < 0 || from + sub.len() > s.len() {
        None
    } else if at(s, sub, from) {
        Some(from)
    } else {
        find_from(s, sub, from + 1)
    }
}

/// `sub` stands somewhere in `s`.
pub open spec fn has(s: Seq<char>, sub: Seq<char>) -> bool {
    exists|i: int| at(s, sub, i)
}

/// What `find_from` finds is the first occurrence.
pub proof fn lemma_find_first(s: Seq<char>, sub: Seq<char>, from: int)
    requires
        0 <= from,
    ensures
        match find_from(s, sub, from) {
            Some(i) => from <= i && at(s, sub, i) && forall|j: int| from <= j < i ==> !at(s, sub, j),
            None => forall|j: int| from <= j ==> !at(s, sub, j),
        },
    decreases s.len() - from + 1,
{
    if from + sub.len() <= s.len() && !at(s, sub, from) {
        lemma_find_first(s, sub, from + 1);
    }
}

/// Whether `sub` stands in `v` at position `i`.
pub fn is_at(v: &Vec<char>, sub: &Vec<char>, i: usize) -> (r: bool)
    requires
        i <= v.len(),
    ensures
        r == at(v@, sub@, i as int),
{
    if sub.len() > v.len() - i {
        return false;
    }
    for k in 0..sub.len()
        invariant
            i + sub.len() <= v.len(),
            forall|j: int| 0 <= j < k ==> v@[i + j] == sub@[j],
    {
        if v[i + k] != sub[k] {
            assert(v@.subrange(i as int, i + sub.len())[k as int] != sub@[k as int]);
            return false;
        }
    }
    assert(v@.subrange(i as int, i + sub.len()) == sub@);
    true
}

/// The first position at or after `from` where `sub` stands in `v`.
pub fn find_at(v: &Vec<char>, sub: &Vec<char>, from: usize) -> (r: Option<usize>)
    requires
        from <= v.len(),
    ensures
        match r {
            Some(i) => find_from(v@, sub@, from as int) == Some(i as int) && i + sub.len() <= v.len(),
            None => find_from(v@, sub@, from as int) is None,
        },
{
    let mut i: usize = from;
    while i <= v.len() && sub.len() <= v.len() - i
        invariant
            from <= i <= v.len() + 1,
            i <= v.len() || sub.len() == 0,
            find_from(v@, sub@, from as int) == find_from(v@, sub@, i as int),
        decreases v.len() + 1 - i,
    {
        if is_at(v, sub, i) {
            return Some(i);
        }
        if i == v.len() {
            assert(v@.subrange(i as int, i as int) == sub@);
            return None;
        }
        i = i + 1;
    }
    None
}

/// Whether `s` contains `sub`.
pub fn contains(s: &str, sub: &str) -> (r: bool)
    ensures
        r == has(s@, sub@),
{
    let v = chars_of(s);
    let w = chars_of(sub);
    proof {
        lemma_find_first(v@, w@, 0);
    }
    match find_at(&v, &w, 0) {
        Some(i) => {
            assert(at(s@, sub@, i as int));
            true
        },
        None => {
            assert forall|j: int| !at(s@, sub@, j) by {
                if j >= 0 {
                }
            }
            false
        },
    }
}

/// Whether `s` begins with `p`.
pub fn starts_with(s: &str, p: &str) -> (r: bool)
    ensures
        r == starts(s@, p@),
{
    is_at(&chars_of(s), &chars_of(p), 0)
}

/// Whether `s` ends with `p`.
pub fn ends_with(s: &str, p: &str) -> (r: bool)
    ensures
        r == ends(s@, p@),
{
    let v = chars_of(s);
    let w = chars_of(p);
    if w.len() > v.len() {
        return false;
    }
    is_at(&v, &w, v.len() - w.len())
}

/// What follows the prefix `p` in `s`, where `s` begins with it.
pub open spec fn after_prefix(s: Seq<char>, p: Seq<char>) -> Option<Seq<char>> {
    if starts(s, p) {
        Some(s.skip(p.len() as int))
    } else {
        None
    }
}

/// Removes the prefix `p`, where it is there.
pub fn strip_prefix(s: &str, p: &str) -> (r: Option<String>)
    ensures
        opt_view(r) == after_prefix(s@, p@),
{
    let v = chars_of(s);
    let w = chars_of(p);
    if is_at(&v, &w, 0) {
        let r = slice_of(&v, w.len(), v.len());
        assert(r@ == s@.skip(p@.len() as int));
        Some(r)
    } else {
        None
    }
}

// ---- first and last occurrence of a character ----

/// The first position of `c` in `s`.
pub open spec fn first_pos(s: Seq<char>, c: char) -> Option<int>
    decreases s.len(),
{
    if s.len() == 0 {
        None
    } else {
        match first_pos(s.drop_last(), c) {
            Some(i) => Some(i),
            None => if s.last() == c {
                Some(s.len() - 1)
            } else {
                None
            },
        }
    }
}

/// The last position of `c` in `s`.
pub open spec fn last_pos(s: Seq<char>, c: char) -> Option<int>
    decreases s.len(),
{
    if s.len() == 0 {
        None
    } else if s.last() == c {
        Some(s.len() - 1)
    } else {
        last_pos(s.drop_last(), c)
    }
}

/// What `first_pos` and `last_pos` mean.
pub proof fn lemma_char_pos(s: Seq<char>, c: char)
    ensures
        match first_pos(s, c) {
            Some(i) => 0 <= i < s.len() && s[i] == c && forall|j: int| 0 <= j < i ==> s[j] != c,
            None => forall|j: int| 0 <= j < s.len() ==> s[j] != c,
        },
        match last_pos(s, c) {
            Some(i) => 0 <= i < s.len() && s[i] == c && forall|j: int| i < j < s.len() ==> s[j] != c,
            None => forall|j: int| 0 <= j < s.len() ==> s[j] != c,
        },
    decreases s.len(),
{
    if s.len() > 0 {
        lemma_char_pos(s.drop_last(), c);
        assert forall|j: int| 0 <= j < s.len() - 1 implies s[j] == s.drop_last()[j] by {
        }
    }
}

/// Finds the first `c`.
pub fn find_char(v: &Vec<char>, c: char) -> (r: Option<usize>)
    ensures
        match r {
            Some(i) => i < v.len() && first_pos(v@, c) == Some(i as int),
            None => first_pos(v@, c) is None,
        },
{
    proof {
        lemma_char_pos(v@, c);
    }
    for i in 0..v.len()
        invariant
            forall|j: int| 0 <= j < i ==> v@[j] != c,
            match first_pos(v@, c) {
                Some(i) => 0 <= i < v@.len() && v@[i] == c && forall|j: int| 0 <= j < i ==> v@[j] != c,
                None => forall|j: int| 0 <= j < v@.len() ==> v@[j] != c,
            },
    {
        if v[i] == c {
            return Some(i);
        }
    }
    None
}

/// Finds the last `c`.
pub fn find_char_back(v: &Vec<char>, c: char) -> (r: Option<usize>)
    ensures
        match r {
            Some(i) => i < v.len() && last_pos(v@, c) == Some(i as int),
            None => last_pos(v@, c) is None,
        },
{
    proof {
        lemma_char_pos(v@, c);
    }
    let mut i: usize = v.len();
    while i > 0
        invariant
            i <= v.len(),
            forall|j: int| i <= j < v.len() ==> v@[j] != c,
            match last_pos(v@, c) {
                Some(i) => 0 <= i < v@.len() && v@[i] == c && forall|j: int| i < j < v@.len() ==> v@[j] != c,
                None => forall|j: int| 0 <= j < v@.len() ==> v@[j] != c,
            },
        decreases i,
    {
        i = i - 1;
        if v[i] == c {
            return Some(i);
        }
    }
    None
}

/// Whether `s` contains the character `c`.
pub fn has_char(s: &str, c: char) -> (r: bool)
    ensures
        r == s@.contains(c),
{
    let v = chars_of(s);
    proof {
        lemma_char_pos(v@, c);
    }
    match find_char(&v, c) {
        Some(_) => true,
        None => false,
    }
}

/// The texts before and after the first `c`.
pub open spec fn cut_first(s: Seq<char>, c: char) -> Option<(Seq<char>, Seq<char>)> {
    match first_pos(s, c) {
        Some(i) => Some((s.take(i), s.skip(i + 1))),
        None => None,
    }
}

/// The texts before and after the last `c`.
pub open spec fn cut_last(s: Seq<char>, c: char) -> Option<(Seq<char>, Seq<char>)> {
    match last_pos(s, c) {
        Some(i) => Some((s.take(i), s.skip(i + 1))),
        None => None,
    }
}

/// The part of `s` behind its last `c`, or all of it.
pub open spec fn after_last(s: Seq<char>, c: char) -> Seq<char> {
    match last_pos(s, c) {
        Some(i) => s.skip(i + 1),
        None => s,
    }
}

/// The text pair of an optional pair of strings.
pub open spec fn pair_view(o: Option<(String, String)>) -> Option<(Seq<char>, Seq<char>)> {
    match o {
        Some(p) => Some((p.0@, p.1@)),
        None => None,
    }
}

/// Splits at the first `c`.
pub fn split_once(s: &str, c: char) -> (r: Option<(String, String)>)
    ensures
        pair_view(r) == cut_first(s@, c),
{
    let v = chars_of(s);
    match find_char(&v, c) {
        Some(i) => {
            let a = slice_of(&v, 0, i);
            let b = slice_of(&v, i + 1, v.len());
            assert(a@ == s@.take(i as int));
            assert(b@ == s@.skip(i + 1));
            Some((a, b))
        },
        None => None,
    }
}

/// Splits at the last `c`.
pub fn rsplit_once(s: &str, c: char) -> (r: Option<(String, String)>)
    ensures
        pair_view(r) == cut_last(s@, c),
{
    let v = chars_of(s);
    match find_char_back(&v, c) {
        Some(i) => {
            let a = slice_of(&v, 0, i);
            let b = slice_of(&v, i + 1, v.len());
            assert(a@ == s@.take(i as int));
            assert(b@ == s@.skip(i + 1));
            Some((a, b))
        },
        None => None,
    }
}

/// The part of `s` behind its last `c`, or all of it.
pub fn tail_after(s: &str, c: char) -> (r: String)
    ensures
        r@ == after_last(s@, c),
{
    match rsplit_once(s, c) {
        Some(p) => p.1,
        None => s.to_owned(),
    }
}

// ---- splitting ----

/// The pieces of `s` between the characters that `cut` picks.
pub open spec fn split(s: Seq<char>, cut: spec_fn(char) -> bool) -> Seq<Seq<char>>
    decreases s.len(),
{
    if s.len() == 0 {
        seq![Seq::empty()]
    } else {
        let front = split(s.drop_last(), cut);
        if cut(s.last()) {
            front.push(Seq::empty())
        } else {
            front.update(front.len() - 1, front.last().push(s.last()))
        }
    }
}

/// The texts of `v` that are not empty.
pub open spec fn filled(v: Seq<Seq<char>>) -> Seq<Seq<char>> {
    v.filter(|t: Seq<char>| t.len() > 0)
}

/// The words of `s`: the runs of characters that are not white space.
pub open spec fn words(s: Seq<char>) -> Seq<Seq<char>> {
    filled(split(s, |c: char| is_space(c)))
}

/// The runs of alphanumeric characters of `s`, empty ones between neighbours included.
pub open spec fn alnum_pieces(s: Seq<char>) -> Seq<Seq<char>> {
    split(s, |c: char| !is_alnum(c))
}

/// There is always at least one piece.
pub proof fn lemma_split_some(s: Seq<char>, cut: spec_fn(char) -> bool)
    ensures
        split(s, cut).len() >= 1,
    decreases s.len(),
{
    if s.len() > 0 {
        lemma_split_some(s.drop_last(), cut);
    }
}

/// Filtering a sequence that grew by one element.
pub proof fn lemma_filter_push<A>(s: Seq<A>, p: spec_fn(A) -> bool, x: A)
    ensures
        s.push(x).filter(p) == if p(x) {
            s.filter(p).push(x)
        } else {
            s.filter(p)
        },
{
    reveal(Seq::filter);
    assert(s.push(x).drop_last() == s);
}

/// Filtering up to the next element.
pub proof fn lemma_filter_take<A>(s: Seq<A>, p: spec_fn(A) -> bool, i: int)
    requires
        0 <= i < s.len(),
    ensures
        s.take(i + 1).filter(p) == if p(s[i]) {
            s.take(i).filter(p).push(s[i])
        } else {
            s.take(i).filter(p)
        },
{
    assert(s.take(i + 1) == s.take(i).push(s[i]));
    lemma_filter_push(s.take(i), p, s[i]);
}

/// Filtering keeps exactly the elements that are picked, and makes no duplicates.
pub proof fn lemma_filtered<A>(s: Seq<A>, p: spec_fn(A) -> bool)
    ensures
        forall|x: A| #[trigger] s.filter(p).contains(x) <==> s.contains(x) && p(x),
        s.no_duplicates() ==> s.filter(p).no_duplicates(),
    decreases s.len(),
{
    reveal(Seq::filter);
    if s.len() > 0 {
        let t = s.drop_last();
        lemma_filtered(t, p);
        let f = t.filter(p);
        assert forall|x: A| #[trigger] s.filter(p).contains(x) <==> s.contains(x) && p(x) by {
            assert(s.contains(x) <==> t.contains(x) || x == s.last()) by {
                if s.contains(x) {
                    let i = s.index_of(x);
                    if i < s.len() - 1 {
                        assert(t[i] == x);
                    }
                }
                if t.contains(x) {
                    assert(s[t.index_of(x)] == x);
                }
                assert(s[s.len() - 1] == s.last());
            }
            assert(f.contains(x) <==> t.contains(x) && p(x));
            if p(s.last()) {
                let u = f.push(s.last());
                if f.contains(x) {
                    assert(u[f.index_of(x)] == x);
                }
                assert(u[u.len() - 1] == s.last());
            }
        }
        if s.no_duplicates() {
            assert(t.no_duplicates());
            if p(s.last()) {
                assert(!t.contains(s.last()));
                assert(!f.contains(s.last()));
            }
        }
    }
}

fn split_when(s: &str, f: impl Fn(char) -> bool, Ghost(cut): Ghost<spec_fn(char) -> bool>) -> (r: Vec<String>)
    requires
        forall|c: char| #[trigger] f.requires((c,)),
        forall|c: char, b: bool| #[trigger] f.ensures((c,), b) ==> b == cut(c),
    ensures
        views(r@) == split(s@, cut),
{
    let v = chars_of(s);
    let mut out: Vec<String> = Vec::new();
    let mut cur = String::new();
    proof {
        assert(views(out@).push(cur@) == split(v@.take(0), cut));
    }
    for i in 0..v.len()
        invariant
            forall|c: char| #[trigger] f.requires((c,)),
            forall|c: char, b: bool| #[trigger] f.ensures((c,), b) ==> b == cut(c),
            views(out@).push(cur@) == split(v@.take(i as int), cut),
    {
        let c = v[i];
        let ghost before = views(out@).push(cur@);
        proof {
            assert(v@.take(i + 1).drop_last() == v@.take(i as int));
            assert(v@.take(i + 1).last() == c);
        }
        if f(c) {
            let ghost old_out = out@;
            out.push(cur);
            cur = String::new();
            proof {
                assert(views(out@) == before);
                assert(views(out@).push(cur@) == split(v@.take(i + 1), cut));
            }
        } else {
            cur.push(c);
            proof {
                assert(views(out@).push(cur@) == before.update(before.len() - 1, before.last().push(c)));
            }
        }
    }
    proof {
        assert(v@.take(v.len() as int) == v@);
    }
    let ghost before = views(out@).push(cur@);
    out.push(cur);
    assert(views(out@) == before);
    out
}

/// Keeps the texts that are not empty.
pub fn drop_empty(v: Vec<String>) -> (r: Vec<String>)
    ensures
        views(r@) == filled(views(v@)),
{
    let mut r: Vec<String> = Vec::new();
    let ghost p = |t: Seq<char>| t.len() > 0;
    proof {
        reveal(Seq::filter);
        assert(views(v@).take(0).filter(p) == Seq::<Seq<char>>::empty());
    }
    for i in 0..v.len()
        invariant
            p == (|t: Seq<char>| t.len() > 0),
            views(r@) == views(v@).take(i as int).filter(p),
    {
        let ghost before = views(r@);
        if !v[i].as_str().is_empty() {
            r.push(v[i].clone());
            assert(views(r@) == before.push(v@[i as int]@));
        }
        proof {
            lemma_filter_take(views(v@), p, i as int);
        }
    }
    assert(views(v@).take(v.len() as int) == views(v@));
    r
}

/// Splits at every `c`.
pub fn split_at_char(s: &str, c: char) -> (r: Vec<String>)
    ensures
        views(r@) == split(s@, |x: char| x == c),
{
    let ghost cut = |x: char| x == c;
    split_when(s, |x: char| -> (b: bool) ensures b == (x == c) { x == c }, Ghost(cut))
}

/// The words of `s`.
pub fn words_of(s: &str) -> (r: Vec<String>)
    ensures
        views(r@) == words(s@),
{
    let ghost cut = |x: char| is_space(x);
    drop_empty(split_when(s, |x: char| -> (b: bool) ensures b == is_space(x) { x.is_whitespace() }, Ghost(cut)))
}

/// Splits at every character that is not alphanumeric.
pub fn alnum_pieces_of(s: &str) -> (r: Vec<String>)
    ensures
        views(r@) == alnum_pieces(s@),
{
    let ghost cut = |x: char| !is_alnum(x);
    split_when(s, |x: char| -> (b: bool) ensures b == !is_alnum(x) { !x.is_alphanumeric() }, Ghost(cut))
}

// ---- character by character ----

/// The alphanumeric characters of `s`.
pub open spec fn only_alnum(s: Seq<char>) -> Seq<char> {
    s.filter(|c: char| is_alnum(c))
}

/// Keeps the alphanumeric characters.
pub fn keep_alnum(s: &str) -> (r: String)
    ensures
        r@ == only_alnum(s@),
{
    let v = chars_of(s);
    let mut r = String::new();
    let ghost p = |c: char| is_alnum(c);
    proof {
        reveal(Seq::filter);
        assert(v@.take(0).filter(p) == Seq::<char>::empty());
    }
    for i in 0..v.len()
        invariant
            p == (|c: char| is_alnum(c)),
            r@ == v@.take(i as int).filter(p),
    {
        if v[i].is_alphanumeric() {
            r.push(v[i]);
        }
        proof {
            lemma_filter_take(v@, p, i as int);
        }
    }
    assert(v@.take(v.len() as int) == v@);
    r
}

/// At most the first `n` characters of `s`.
pub open spec fn first_n(s: Seq<char>, n: int) -> Seq<char> {
    if s.len() <= n {
        s
    } else {
        s.take(n)
    }
}

/// At most the first `n` characters.
pub fn take_chars(s: &str, n: usize) -> (r: String)
    ensures
        r@ == first_n(s@, n as int),
{
    let v = chars_of(s);
    if v.len() <= n {
        s.to_owned()
    } else {
        let r = slice_of(&v, 0, n);
        assert(r@ == s@.take(n as int));
        r
    }
}

/// `s` with every `from` replaced by `to`.
pub fn replace_char(s: &str, from: char, to: char) -> (r: String)
    ensures
        r@ == s@.map_values(|c: char| if c == from { to } else { c }),
{
    let v = chars_of(s);
    let mut r = String::new();
    for i in 0..v.len()
        invariant
            r@.len() == i,
            forall|j: int| 0 <= j < i ==> r@[j] == if v@[j] == from { to } else { v@[j] },
    {
        r.push(if v[i] == from { to } else { v[i] });
    }
    assert(r@ == s@.map_values(|c: char| if c == from { to } else { c }));
    r
}

// ---- lines ----

/// A line without the carriage return that may end it.
pub open spec fn chop_cr(s: Seq<char>) -> Seq<char> {
    if s.len() > 0 && s.last() == '\r' {
        s.drop_last()
    } else {
        s
    }
}

/// The lines of a text. Line feeds end them; one that ends the text starts no new line.
pub open spec fn lines(s: Seq<char>) -> Seq<Seq<char>> {
    let pieces = split(s, |c: char| c == '\n');
    let kept = if pieces.last().len() == 0 { pieces.drop_last() } else { pieces };
    Seq::new(kept.len(), |i: int| if i < pieces.len() - 1 { chop_cr(kept[i]) } else { kept[i] })
}

/// The lines of a text.
pub fn lines_of(s: &str) -> (r: Vec<String>)
    ensures
        views(r@) == lines(s@),
{
    let pieces = split_at_char(s, '\n');
    proof {
        assert((|x: char| x == '\n') == (|c: char| c == '\n'));
        lemma_split_some(s@, |c: char| c == '\n');
    }
    let ghost all = views(pieces@);
    let n: usize = pieces.len();
    let keep: usize = if pieces[n - 1].as_str().is_empty() { n - 1 } else { n };
    let mut r: Vec<String> = Vec::new();
    for i in 0..keep
        invariant
            n == pieces.len(),
            keep <= n,
            r.len() == i,
            forall|j: int| 0 <= j < i ==> r@[j]@ == if j < n - 1 { chop_cr(pieces@[j]@) } else { pieces@[j]@ },
    {
        let line = chars_of(pieces[i].as_str());
        if i < n - 1 && line.len() > 0 && line[line.len() - 1] == '\r' {
            let cut = slice_of(&line, 0, line.len() - 1);
            assert(cut@ == chop_cr(pieces@[i as int]@));
            r.push(cut);
        } else {
            r.push(pieces[i].clone());
        }
    }
    assert(views(r@) == lines(s@));
    r
}

// ---- laws ----

/// What is split before a character that cuts is split alone; what stands behind the character,
/// and is not cut itself, is one piece.
pub proof fn lemma_split_push(a: Seq<char>, c: char, b: Seq<char>, cut: spec_fn(char) -> bool)
    requires
        cut(c),
        forall|i: int| 0 <= i < b.len() ==> !cut(#[trigger] b[i]),
    ensures
        split(a.push(c) + b, cut) == split(a, cut).push(b),
    decreases b.len(),
{
    if b.len() == 0 {
        assert(a.push(c) + b == a.push(c));
        assert(a.push(c).drop_last() == a);
        assert(b == Seq::<char>::empty());
    } else {
        let f = b.drop_last();
        let s = a.push(c) + b;
        lemma_split_push(a, c, f, cut);
        assert(s.drop_last() == a.push(c) + f);
        assert(s.last() == b.last());
        assert(!cut(b[b.len() - 1]));
        assert(f.push(b.last()) == b);
        let front = split(a, cut).push(f);
        assert(front.update(front.len() - 1, f.push(b.last())) == split(a, cut).push(b));
    }
}

/// The pieces of a text, put together with a character between them that cuts, are the text
/// again, and none of them is cut.
pub proof fn law_split_joins(s: Seq<char>, c: char, cut: spec_fn(char) -> bool)
    requires
        forall|x: char| #[trigger] cut(x) == (x == c),
    ensures
        join(split(s, cut), seq![c]) == s,
        forall|i: int| 0 <= i < split(s, cut).len() ==> !(#[trigger] split(s, cut)[i]).contains(c),
    decreases s.len(),
{
    if s.len() > 0 {
        let t = s.drop_last();
        law_split_joins(t, c, cut);
        lemma_split_some(t, cut);
        let front = split(t, cut);
        let all = split(s, cut);
        if s.last() == c {
            assert(all.drop_last() == front);
            assert(join(front, seq![c]) + seq![c] + Seq::<char>::empty() == t.push(c));
            assert(t.push(c) == s);
            assert forall|i: int| 0 <= i < all.len() implies !(#[trigger] all[i]).contains(c) by {
                if i < front.len() {
                    assert(all[i] == front[i]);
                }
            }
        } else {
            assert(all.drop_last() == front.drop_last());
            assert(all.last() == front.last().push(s.last()));
            if front.len() == 1 {
                assert(join(all, seq![c]) == front[0].push(s.last()));
            } else {
                assert(join(front.drop_last(), seq![c]) + seq![c] + front.last().push(s.last()) == (join(
                    front.drop_last(),
                    seq![c],
                ) + seq![c] + front.last()).push(s.last()));
            }
            assert(t.push(s.last()) == s);
            assert forall|i: int| 0 <= i < all.len() implies !(#[trigger] all[i]).contains(c) by {
                if i < front.len() - 1 {
                    assert(all[i] == front[i]);
                } else {
                    let p = front.last();
                    assert(!front[front.len() - 1].contains(c));
                    if all[i].contains(c) {
                        let k = all[i].index_of(c);
                        if k < p.len() {
                            assert(p[k] == c);
                        }
                    }
                }
            }
        }
    }
}

/// A text is trimmed of white space only, and of all that stands at its ends.
pub proof fn law_trimmed(s: Seq<char>)
    ensures
        exists|a: Seq<char>, b: Seq<char>|
            #![trigger a + trim(s) + b]
            s == a + trim(s) + b && all_space(a) && all_space(b),
        trim(s).len() > 0 ==> !is_space(trim(s)[0]) && !is_space(trim(s).last()),
        blank(s) <==> all_space(s),
{
    let t = trim_start(s);
    let a = lemma_cut_start(s);
    let b = lemma_cut_end(t);
    assert(a + trim(s) + b == a + (trim(s) + b));
    assert(s == a + trim(s) + b);
    if trim(s).len() == 0 {
        assert(trim(s) + b == b);
        assert forall|i: int| 0 <= i < s.len() implies is_space(#[trigger] s[i]) by {
            if i < a.len() {
                assert(a[i] == s[i]);
            } else {
                assert(b[i - a.len()] == s[i]);
            }
        }
    } else {
        assert(s[a.len() as int] == trim(s)[0]);
        assert(t[0] == trim(s)[0]);
    }
}

/// White space only.
pub open spec fn all_space(s: Seq<char>) -> bool {
    forall|i: int| 0 <= i < s.len() ==> is_space(#[trigger] s[i])
}

proof fn lemma_cut_start(s: Seq<char>) -> (a: Seq<char>)
    ensures
        s == a + trim_start(s),
        all_space(a),
        trim_start(s).len() > 0 ==> !is_space(trim_start(s)[0]),
    decreases s.len(),
{
    if s.len() > 0 && is_space(s[0]) {
        let b = lemma_cut_start(s.skip(1));
        let a = seq![s[0]] + b;
        assert(a + trim_start(s) == seq![s[0]] + s.skip(1));
        assert(seq![s[0]] + s.skip(1) == s);
        a
    } else {
        assert(Seq::<char>::empty() + s == s);
        Seq::empty()
    }
}

proof fn lemma_cut_end(s: Seq<char>) -> (b: Seq<char>)
    ensures
        s == trim_end(s) + b,
        all_space(b),
        trim_end(s).len() > 0 ==> !is_space(trim_end(s).last()),
    decreases s.len(),
{
    if s.len() > 0 && is_space(s.last()) {
        let a = lemma_cut_end(s.drop_last());
        let b = a.push(s.last());
        assert(trim_end(s) + b == (trim_end(s) + a).push(s.last()));
        assert(s.drop_last().push(s.last()) == s);
        b
    } else {
        assert(s + Seq::<char>::empty() == s);
        Seq::empty()
    }
}

/// Case is all that lowering and raising an ASCII text change, letter by letter.
pub proof fn law_ascii_case(s: Seq<char>)
    requires
        all_ascii(s),
    ensures
        lower(s).len() == s.len(),
        upper(s).len() == s.len(),
        forall|i: int|
            0 <= i < s.len() ==> #[trigger] lower(s)[i] as u32 == if 65 <= s[i] as u32 <= 90 {
                (s[i] as u32 + 32) as u32
            } else {
                s[i] as u32
            },
        forall|i: int|
            0 <= i < s.len() ==> #[trigger] upper(s)[i] as u32 == if 97 <= s[i] as u32 <= 122 {
                (s[i] as u32 - 32) as u32
            } else {
                s[i] as u32
            },
{
}

/// A text stands in another where something before it and something behind it complete it.
pub proof fn law_has_is_contains(a: Seq<char>, sub: Seq<char>, b: Seq<char>)
    ensures
        has(a + sub + b, sub),
        starts(sub + b, sub),
        ends(a + sub, sub),
{
    let s = a + sub + b;
    assert(s.subrange(a.len() as int, (a.len() + sub.len()) as int) == sub);
    assert(at(s, sub, a.len() as int));
    assert((sub + b).subrange(0, sub.len() as int) == sub);
    assert((a + sub).subrange(a.len() as int, (a.len() + sub.len()) as int) == sub);
}

/// A text that stands in another leaves something before it and something behind it.
pub proof fn law_has_has_place(s: Seq<char>, sub: Seq<char>)
    ensures
        has(s, sub) ==> exists|a: Seq<char>, b: Seq<char>| s == #[trigger] (a + sub + b),
        starts(s, sub) ==> s == sub + s.skip(sub.len() as int),
        ends(s, sub) ==> s == s.take(s.len() - sub.len()) + sub,
        starts(s, sub) || ends(s, sub) ==> has(s, sub),
{
    if has(s, sub) {
        let i = choose|i: int| at(s, sub, i);
        assert(s == s.take(i) + sub + s.skip(i + sub.len()));
    }
}

/// Reduced to letters and digits, one text behind another is the two reduced.
pub proof fn lemma_alnum_adds(a: Seq<char>, b: Seq<char>)
    ensures
        only_alnum(a + b) == only_alnum(a) + only_alnum(b),
    decreases b.len(),
{
    let p = |c: char| is_alnum(c);
    if b.len() == 0 {
        assert(a + b == a);
        reveal(Seq::filter);
        assert(only_alnum(a) + only_alnum(b) == only_alnum(a));
    } else {
        let f = b.drop_last();
        lemma_alnum_adds(a, f);
        assert(a + b == (a + f).push(b.last()));
        assert(f.push(b.last()) == b);
        lemma_filter_push(a + f, p, b.last());
        lemma_filter_push(f, p, b.last());
        assert(only_alnum(a) + only_alnum(f).push(b.last()) == (only_alnum(a) + only_alnum(f)).push(b.last()));
    }
}

/// In lower case, one ASCII text behind another is the two in lower case.
pub proof fn lemma_lower_adds(a: Seq<char>, b: Seq<char>)
    requires
        all_ascii(a),
        all_ascii(b),
    ensures
        all_ascii(a + b),
        lower(a + b) == lower(a) + lower(b),
{
    assert forall|i: int| 0 <= i < (a + b).len() implies is_ascii(#[trigger] (a + b)[i]) by {
        if i < a.len() {
            assert((a + b)[i] == a[i]);
        } else {
            assert((a + b)[i] == b[i - a.len()]);
        }
    }
    assert(lower(a + b) =~= lower(a) + lower(b));
}

/// The part of a text behind its last `c` holds no `c`, and the text ends with it.
pub proof fn law_after_last(s: Seq<char>, c: char)
    ensures
        !after_last(s, c).contains(c),
        !s.contains(c) ==> after_last(s, c) == s,
        s.contains(c) ==> exists|a: Seq<char>| s == #[trigger] (a.push(c) + after_last(s, c)),
{
    lemma_char_pos(s, c);
    match last_pos(s, c) {
        Some(i) => {
            assert(s == s.take(i).push(c) + s.skip(i + 1));
            assert(s.contains(c));
            if after_last(s, c).contains(c) {
                let k = after_last(s, c).index_of(c);
                assert(s[i + 1 + k] == c);
            }
        },
        None => {},
    }
}
/// Texts that are joined by a character that none of them holds are found again by splitting.
pub proof fn law_join_splits(parts: Seq<Seq<char>>, c: char, cut: spec_fn(char) -> bool)
    requires
        parts.len() > 0,
        forall|x: char| #[trigger] cut(x) == (x == c),
        forall|i: int| 0 <= i < parts.len() ==> !(#[trigger] parts[i]).contains(c),
    ensures
        split(join(parts, seq![c]), cut) == parts,
    decreases parts.len(),
{
    let last = parts.last();
    assert(!parts[parts.len() - 1].contains(c));
    assert forall|i: int| 0 <= i < last.len() implies !cut(#[trigger] last[i]) by {
        if last[i] == c {
            assert(last.contains(c));
        }
    }
    if parts.len() == 1 {
        lemma_split_whole(last, cut);
        assert(parts =~= seq![last]);
    } else {
        let f = parts.drop_last();
        assert forall|i: int| 0 <= i < f.len() implies !(#[trigger] f[i]).contains(c) by {
            assert(f[i] == parts[i]);
        }
        law_join_splits(f, c, cut);
        let head = join(f, seq![c]);
        assert(head + seq![c] + last =~= head.push(c) + last);
        lemma_split_push(head, c, last, cut);
        assert(f.push(last) =~= parts);
    }
}

proof fn lemma_split_whole(s: Seq<char>, cut: spec_fn(char) -> bool)
    requires
        forall|i: int| 0 <= i < s.len() ==> !cut(#[trigger] s[i]),
    ensures
        split(s, cut) == seq![s],
    decreases s.len(),
{
    if s.len() == 0 {
        assert(s =~= Seq::<char>::empty());
    } else {
        lemma_split_whole(s.drop_last(), cut);
        assert(!cut(s[s.len() - 1]));
        assert(s.drop_last().push(s.last()) =~= s);
        assert(split(s, cut) =~= seq![s]);
    }
}

/// The words of a text hold no white space and are not empty; a text without white space is one
/// word, and a word behind white space is one more.
pub proof fn law_words(s: Seq<char>, c: char, w: Seq<char>)
    requires
        is_space(c),
        w.len() > 0,
        forall|i: int| 0 <= i < w.len() ==> !is_space(#[trigger] w[i]),
    ensures
        words(w) == seq![w],
        words(s.push(c) + w) == words(s).push(w),
        words(s.push(c)) == words(s),
        words(Seq::empty()).len() == 0,
{
    let cut = |x: char| is_space(x);
    let full = |t: Seq<char>| t.len() > 0;
    assert forall|i: int| 0 <= i < w.len() implies !cut(#[trigger] w[i]) by {
        assert(!is_space(w[i]));
    }
    lemma_split_whole(w, cut);
    lemma_filter_push(Seq::<Seq<char>>::empty(), full, w);
    reveal(Seq::filter);
    assert(Seq::<Seq<char>>::empty().push(w) =~= seq![w]);
    assert(Seq::<Seq<char>>::empty().filter(full) =~= Seq::<Seq<char>>::empty());
    assert(seq![w] =~= Seq::<Seq<char>>::empty().push(w));
    lemma_split_push(s, c, w, cut);
    lemma_filter_push(split(s, cut), full, w);
    lemma_split_push(s, c, Seq::empty(), cut);
    assert(s.push(c) + Seq::<char>::empty() =~= s.push(c));
    lemma_filter_push(split(s, cut), full, Seq::empty());
    lemma_filter_push(Seq::<Seq<char>>::empty(), full, Seq::empty());
    assert(split(Seq::<char>::empty(), cut) =~= Seq::<Seq<char>>::empty().push(Seq::empty()));
}

/// A text is read line by line: each line ends before its line break, and before a carriage return
/// that stands right before the break; what follows the last break is a line as it is, if it is
/// not empty.
pub proof fn law_lines(a: Seq<char>, line: Seq<char>)
    requires
        !line.contains('\n'),
    ensures
        lines(Seq::empty()).len() == 0,
        line.len() > 0 ==> lines(line) == seq![line],
        lines(line.push('\n')) == seq![
            if line.len() > 0 && line.last() == '\r' {
                line.drop_last()
            } else {
                line
            },
        ],
        lines(a.push('\n') + line.push('\n')) == lines(a.push('\n')).push(
            if line.len() > 0 && line.last() == '\r' {
                line.drop_last()
            } else {
                line
            },
        ),
        line.len() > 0 ==> lines(a.push('\n') + line) == lines(a.push('\n')).push(line),
{
    let cut = |c: char| c == '\n';
    let none = Seq::<char>::empty();
    assert forall|i: int| 0 <= i < line.len() implies !cut(#[trigger] line[i]) by {}
    lemma_split_whole(line, cut);
    lemma_split_whole(none, cut);
    lemma_split_push(line, '\n', none, cut);
    assert(line.push('\n') + none =~= line.push('\n'));
    lemma_split_push(a, '\n', line, cut);
    lemma_split_push(a, '\n', none, cut);
    assert(a.push('\n') + none =~= a.push('\n'));
    let both = a.push('\n') + line;
    lemma_split_push(both, '\n', none, cut);
    assert(both.push('\n') + none =~= a.push('\n') + line.push('\n'));
    lemma_split_some(a, cut);
    assert(lines(none) =~= Seq::<Seq<char>>::empty());
    if line.len() > 0 {
        assert(lines(line) =~= seq![line]);
        assert(split(both, cut).drop_last() =~= split(a, cut));
        assert(split(a.push('\n'), cut).drop_last() =~= split(a, cut));
        assert(lines(both) =~= lines(a.push('\n')).push(line));
    }
    assert(split(line.push('\n'), cut).drop_last() =~= seq![line]);
    assert(lines(line.push('\n')) =~= seq![chop_cr(line)]);
    assert(split(both.push('\n'), cut).drop_last() =~= split(both, cut));
    assert(split(a.push('\n'), cut).drop_last() =~= split(a, cut));
    assert(lines(both.push('\n')) =~= lines(a.push('\n')).push(chop_cr(line)));
}

/// A text that is cut at its last `c` is what stands before it and what stands behind it.
pub proof fn law_cut_last(a: Seq<char>, c: char, b: Seq<char>)
    requires
        !b.contains(c),
    ensures
        cut_last(a.push(c) + b, c) == Some((a, b)),
        cut_last(b, c) is None,
{
    let s = a.push(c) + b;
    lemma_char_pos(s, c);
    lemma_char_pos(b, c);
    assert(s[a.len() as int] == c);
    assert forall|k: int| a.len() < k < s.len() implies s[k] != c by {
        assert(s[k] == b[k - a.len() - 1]);
    }
    assert(s.take(a.len() as int) =~= a);
    assert(s.skip((a.len() + 1) as int) =~= b);
}

/// Bytes that are a text in UTF-8 are that text.
pub proof fn law_text_is_kept(bytes: Seq<u8>)
    requires
        vstd::utf8::valid_utf8(bytes),
    ensures
        lossy(bytes) == vstd::utf8::decode_utf8(bytes),
{
}

} // verus!
