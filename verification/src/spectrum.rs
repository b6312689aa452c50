//! The spectrum of a track: how it is cut into frames, and how it is stored.
//!
//! Here a floating-point number is its bits. What is computed with such numbers, the
//! transform itself and the levels, belongs to the caller.

use vstd::prelude::*;
use crate::nums::{hex_digits, hex_of};
use crate::text::{cat2, holds, lemma_filter_take, lemma_filtered, list_has, same, views};

verus! {

/// Samples per second.
pub const SAMPLE_RATE: u32 = 22050;

/// Samples in a frame.
pub const WINDOW: usize = 2048;

/// Samples from one frame to the next.
pub const HOP: usize = 1024;

/// Bands of a frame.
pub const BANDS: usize = 64;

// ---- frames ----

/// How many frames a track of so many samples has: one for every step at which a whole
/// window is left; a track that is shorter than a window has one.
pub open spec fn frame_count(len: int) -> int {
    if len >= 2048 {
        (len - 2048) / 1024 + 1
    } else if len > 0 {
        1
    } else {
        0
    }
}

/// Where the frames of a track of so many samples start.
pub fn frame_starts(len: usize) -> (r: Vec<usize>)
    ensures
        r.len() == frame_count(len as int),
        forall|i: int| 0 <= i < r.len() ==> r@[i] == i * 1024,
        forall|i: int| 0 <= i < r.len() && len >= 2048 ==> r@[i] + 2048 <= len,
{
    let mut r: Vec<usize> = Vec::new();
    if len >= WINDOW {
        let mut pos: usize = 0;
        while pos <= len - WINDOW
            invariant
                len >= 2048,
                pos == r.len() * 1024,
                pos <= len - 2048 + 1024,
                forall|i: int| 0 <= i < r.len() ==> r@[i] == i * 1024,
                forall|i: int| 0 <= i < r.len() ==> r@[i] + 2048 <= len,
            decreases len - pos,
        {
            r.push(pos);
            pos = pos + HOP;
        }
        assert(r.len() == frame_count(len as int));
    } else if len > 0 {
        r.push(0);
    }
    r
}

/// The levels of a bar.
pub open spec fn glyphs() -> Seq<char> {
    seq![' ', '▁', '▂', '▃', '▄', '▅', '▆', '▇']
}

/// The bar of a level from 0 to 7.
pub fn bar_glyph(level: usize) -> (c: char)
    requires
        level < 8,
    ensures
        c == glyphs()[level as int],
{
    if level == 0 {
        ' '
    } else if level == 1 {
        '▁'
    } else if level == 2 {
        '▂'
    } else if level == 3 {
        '▃'
    } else if level == 4 {
        '▄'
    } else if level == 5 {
        '▅'
    } else if level == 6 {
        '▆'
    } else {
        '▇'
    }
}

// ---- the order of the transform ----

/// Two to the power `k`.
pub open spec fn two_to(k: nat) -> nat
    decreases k,
{
    if k == 0 {
        1
    } else {
        2 * two_to((k - 1) as nat)
    }
}

/// The number whose `bits` binary digits are those of `i` in reverse.
pub open spec fn reversed(i: nat, bits: nat) -> nat
    decreases bits,
{
    if bits == 0 {
        0
    } else {
        (i % 2) * two_to((bits - 1) as nat) + reversed(i / 2, (bits - 1) as nat)
    }
}

proof fn lemma_two_to(k: nat)
    ensures
        two_to(k) >= 1,
    decreases k,
{
    if k > 0 {
        lemma_two_to((k - 1) as nat);
    }
}

proof fn lemma_two_to_grows(a: nat, b: nat)
    requires
        a <= b,
    ensures
        two_to(a) <= two_to(b),
    decreases b,
{
    if a < b {
        lemma_two_to_grows(a, (b - 1) as nat);
        lemma_two_to((b - 1) as nat);
    }
}

proof fn lemma_reversed_bound(i: nat, bits: nat)
    ensures
        reversed(i, bits) < two_to(bits),
    decreases bits,
{
    if bits > 0 {
        lemma_reversed_bound(i / 2, (bits - 1) as nat);
        let p = two_to((bits - 1) as nat);
        assert((i % 2) * p <= p) by (nonlinear_arith)
            requires
                0 <= i % 2 <= 1,
        ;
    }
}

/// The number with `bits` binary digits reversed.
pub fn reverse_bits(i: usize, bits: u32) -> (r: usize)
    requires
        two_to(bits as nat) <= usize::MAX,
    ensures
        r == reversed(i as nat, bits as nat),
        r < two_to(bits as nat),
{
    let mut x: usize = i;
    let mut k: u32 = 0;
    let mut r: usize = 0;
    proof {
        assert(0 * two_to(bits as nat) == 0) by (nonlinear_arith);
    }
    while k < bits
        invariant
            k <= bits,
            two_to(bits as nat) <= usize::MAX,
            reversed(i as nat, bits as nat) == r * two_to((bits - k) as nat) + reversed(x as nat, (bits - k) as nat),
            r < two_to(k as nat),
        decreases bits - k,
    {
        let ghost rest = two_to((bits - k - 1) as nat);
        proof {
            lemma_two_to_grows((k + 1) as nat, bits as nat);
            let b = (x % 2) as nat;
            let rr = r as nat;
            assert(rr * (2 * rest) + b * rest == (2 * rr + b) * rest) by (nonlinear_arith);
        }
        r = 2 * r + x % 2;
        x = x / 2;
        k = k + 1;
    }
    proof {
        assert(r * two_to(0) == r) by (nonlinear_arith)
            requires
                two_to(0) == 1,
        ;
        lemma_reversed_bound(i as nat, bits as nat);
    }
    r
}

/// The pairs of places that the transform of `two_to(bits)` values exchanges first: each
/// place with its reverse, once.
pub fn swap_pairs(bits: u32) -> (r: Vec<(usize, usize)>)
    requires
        two_to(bits as nat) <= usize::MAX,
    ensures
        forall|k: int|
            0 <= k < r.len() ==> (#[trigger] r@[k]).0 < r@[k].1 && r@[k].1 == reversed(r@[k].0 as nat, bits as nat)
                && r@[k].1 < two_to(bits as nat),
        forall|k: int, l: int| 0 <= k < l < r.len() ==> (#[trigger] r@[k]).0 < (#[trigger] r@[l]).0,
        forall|i: int|
            0 <= i < two_to(bits as nat) && i < #[trigger] reversed(i as nat, bits as nat) ==> exists|k: int|
                0 <= k < r.len() && (#[trigger] r@[k]).0 == i,
{
    let n: usize = power_of_two(bits);
    let mut r: Vec<(usize, usize)> = Vec::new();
    let mut i: usize = 0;
    while i < n
        invariant
            two_to(bits as nat) <= usize::MAX,
            n == two_to(bits as nat),
            i <= n,
            forall|k: int|
                0 <= k < r.len() ==> (#[trigger] r@[k]).0 < r@[k].1 && r@[k].1 == reversed(
                    r@[k].0 as nat,
                    bits as nat,
                ) && r@[k].1 < n && r@[k].0 < i,
            forall|k: int, l: int| 0 <= k < l < r.len() ==> (#[trigger] r@[k]).0 < (#[trigger] r@[l]).0,
            forall|j: int|
                0 <= j < i && j < #[trigger] reversed(j as nat, bits as nat) ==> exists|k: int|
                    0 <= k < r.len() && (#[trigger] r@[k]).0 == j,
        decreases n - i,
    {
        let j: usize = reverse_bits(i, bits);
        let ghost before = r@;
        if i < j {
            r.push((i, j));
            assert(r@[before.len() as int].0 == i);
        }
        assert forall|m: int| 0 <= m < i + 1 && m < #[trigger] reversed(m as nat, bits as nat) implies exists|k: int|
            0 <= k < r.len() && (#[trigger] r@[k]).0 == m by {
            if m < i {
                let k = choose|k: int| 0 <= k < before.len() && (#[trigger] before[k]).0 == m;
                assert(r@[k].0 == m);
            }
        }
        i = i + 1;
    }
    r
}

fn power_of_two(bits: u32) -> (n: usize)
    requires
        two_to(bits as nat) <= usize::MAX,
    ensures
        n == two_to(bits as nat),
{
    let mut n: usize = 1;
    let mut k: u32 = 0;
    while k < bits
        invariant
            k <= bits,
            two_to(bits as nat) <= usize::MAX,
            n == two_to(k as nat),
        decreases bits - k,
    {
        proof {
            lemma_two_to_grows((k + 1) as nat, bits as nat);
        }
        n = n * 2;
        k = k + 1;
    }
    n
}

// ---- bytes ----

/// A number as `width` bytes, the smallest first.
pub open spec fn le_bytes(n: int, width: nat) -> Seq<u8>
    decreases width,
{
    if width == 0 {
        Seq::empty()
    } else {
        seq![(n % 256) as u8] + le_bytes(n / 256, (width - 1) as nat)
    }
}

/// The number that bytes stand for, the smallest first.
pub open spec fn le_value(s: Seq<u8>) -> int
    decreases s.len(),
{
    if s.len() == 0 {
        0
    } else {
        s[0] + 256 * le_value(s.skip(1))
    }
}

fn push_le(out: &mut Vec<u8>, n: u64, width: u32)
    ensures
        final(out)@ == old(out)@ + le_bytes(n as int, width as nat),
{
    let mut x: u64 = n;
    let mut k: u32 = 0;
    assert(out@ + le_bytes(x as int, width as nat) == old(out)@ + le_bytes(n as int, width as nat));
    while k < width
        invariant
            k <= width,
            out@ + le_bytes(x as int, (width - k) as nat) == old(out)@ + le_bytes(n as int, width as nat),
        decreases width - k,
    {
        let ghost before = out@;
        let ghost rest = le_bytes(x as int / 256, (width - k - 1) as nat);
        let b: u8 = (x % 256) as u8;
        out.push(b);
        assert(before.push(b) + rest == before + (seq![b] + rest));
        x = x / 256;
        k = k + 1;
    }
    assert(out@ + Seq::<u8>::empty() == out@);
}

fn read_le(raw: &Vec<u8>, from: usize, width: usize) -> (n: u64)
    requires
        from + width <= raw.len(),
        width <= 8,
    ensures
        n == le_value(raw@.subrange(from as int, from + width)),
{
    let mut n: u64 = 0;
    let mut k: usize = width;
    let ghost end = from + width;
    assert(raw@.subrange(end, end) == Seq::<u8>::empty());
    while k > 0
        invariant
            k <= width <= 8,
            end == from + width,
            from + width <= raw.len(),
            n == le_value(raw@.subrange(from + k, end)),
            le_value(raw@.subrange(from + k, end)) < pow256((width - k) as nat),
        decreases k,
    {
        proof {
            let s = raw@.subrange(from + k - 1, end);
            assert(s.skip(1) == raw@.subrange(from + k, end));
            assert(s[0] == raw@[from + k - 1]);
            lemma_pow256((width - k) as nat);
        }
        n = raw[from + k - 1] as u64 + 256 * n;
        k = k - 1;
    }
    n
}

/// 256 to the power `k`.
pub open spec fn pow256(k: nat) -> int
    decreases k,
{
    if k == 0 {
        1
    } else {
        256 * pow256((k - 1) as nat)
    }
}

proof fn lemma_pow256(k: nat)
    requires
        k < 8,
    ensures
        1 <= pow256(k) <= 0x100_0000_0000_0000,
{
    reveal_with_fuel(pow256, 9);
}

// ---- a stored spectrum ----

/// The spectrum of a track: the bits of its frames' bands, and those of the seconds from
/// one frame to the next.
pub struct TrackSpec {
    pub frames: Vec<Vec<u32>>,
    pub frame_dur: u64,
}

/// The model of a [`TrackSpec`].
#[verifier::ext_equal]
pub struct SpecV {
    pub frames: Seq<Seq<u32>>,
    pub frame_dur: u64,
}

impl View for TrackSpec {
    type V = SpecV;

    open spec fn view(&self) -> SpecV {
        SpecV { frames: Seq::new(self.frames@.len(), |i: int| self.frames@[i]@), frame_dur: self.frame_dur }
    }
}

impl SpecV {
    /// Every frame has all of its bands.
    pub open spec fn wf(self) -> bool {
        forall|i: int| 0 <= i < self.frames.len() ==> (#[trigger] self.frames[i]).len() == 64
    }
}

/// What a stored spectrum begins with.
pub open spec fn magic() -> Seq<u8> {
    seq![83u8, 80, 69, 67, 48, 48, 48, 49]
}

/// The bands of all frames, one behind the other.
pub open spec fn all_bands(frames: Seq<Seq<u32>>) -> Seq<u32>
    decreases frames.len(),
{
    if frames.len() == 0 {
        Seq::empty()
    } else {
        all_bands(frames.drop_last()) + frames.last()
    }
}

/// The bytes of 32-bit numbers, one behind the other.
pub open spec fn word_bytes(ws: Seq<u32>) -> Seq<u8>
    decreases ws.len(),
{
    if ws.len() == 0 {
        Seq::empty()
    } else {
        word_bytes(ws.drop_last()) + le_bytes(ws.last() as int, 4)
    }
}

/// The bytes that a spectrum is stored as.
pub open spec fn stored_bytes(t: SpecV) -> Seq<u8> {
    magic() + le_bytes((t.frames.len() as u32) as int, 4) + le_bytes(t.frame_dur as int, 8) + word_bytes(
        all_bands(t.frames),
    )
}

/// The bytes that a spectrum is stored as.
pub fn write_cache(t: &TrackSpec) -> (r: Vec<u8>)
    ensures
        r@ == stored_bytes(t@),
{
    let mut out: Vec<u8> = Vec::new();
    out.push(83u8);
    out.push(80u8);
    out.push(69u8);
    out.push(67u8);
    out.push(48u8);
    out.push(48u8);
    out.push(48u8);
    out.push(49u8);
    assert(out@ == magic());
    push_le(&mut out, (t.frames.len() as u32) as u64, 4);
    push_le(&mut out, t.frame_dur, 8);
    let ghost head = out@;
    let ghost fs = t@.frames;
    assert(head + word_bytes(all_bands(fs.take(0))) == head);
    for i in 0..t.frames.len()
        invariant
            fs == t@.frames,
            fs.len() == t.frames.len(),
            out@ == head + word_bytes(all_bands(fs.take(i as int))),
    {
        let f = &t.frames[i];
        let ghost done = all_bands(fs.take(i as int));
        assert(done + f@.take(0) == done);
        for b in 0..f.len()
            invariant
                out@ == head + word_bytes(done + f@.take(b as int)),
        {
            let ghost now = done + f@.take(b as int);
            let ghost next = done + f@.take(b + 1);
            assert(next.drop_last() == now);
            assert(next.last() == f@[b as int]);
            push_le(&mut out, f[b] as u64, 4);
            assert(out@ == head + word_bytes(next));
        }
        proof {
            assert(f@.take(f.len() as int) == f@);
            assert(fs.take(i + 1).drop_last() == fs.take(i as int));
            assert(fs.take(i + 1).last() == f@);
        }
    }
    assert(fs.take(t.frames.len() as int) == fs);
    out
}

/// How many frames stored bytes claim.
pub open spec fn claimed_frames(raw: Seq<u8>) -> int {
    le_value(raw.subrange(8, 12))
}

/// The band `b` of frame `i` in stored bytes.
pub open spec fn band_at(raw: Seq<u8>, i: int, b: int) -> u32 {
    let o = 20 + (i * 64 + b) * 4;
    le_value(raw.subrange(o, o + 4)) as u32
}

/// The frame `i` in stored bytes.
pub open spec fn frame_at(raw: Seq<u8>, i: int) -> Seq<u32> {
    Seq::new(64, |b: int| band_at(raw, i, b))
}

/// The spectrum that bytes store; `None` where they do not begin like one, or are not as
/// many as they claim.
pub open spec fn stored_spec(raw: Seq<u8>) -> Option<SpecV> {
    if raw.len() < 16 || raw.take(8) != magic() || raw.len() != 20 + claimed_frames(raw) * 64 * 4 {
        None
    } else {
        Some(
            SpecV {
                frames: Seq::new(claimed_frames(raw) as nat, |i: int| frame_at(raw, i)),
                frame_dur: le_value(raw.subrange(12, 20)) as u64,
            },
        )
    }
}

fn begins_like_spec(raw: &Vec<u8>) -> (r: bool)
    requires
        raw.len() >= 8,
    ensures
        r == (raw@.take(8) == magic()),
{
    let r = raw[0] == 83 && raw[1] == 80 && raw[2] == 69 && raw[3] == 67 && raw[4] == 48 && raw[5] == 48 && raw[6] == 48
        && raw[7] == 49;
    proof {
        if r {
            assert(raw@.take(8) == magic());
        } else if raw@.take(8) == magic() {
            assert(forall|i: int| 0 <= i < 8 ==> raw@.take(8)[i] == raw@[i]);
            assert(magic()[0] == 83 && magic()[1] == 80 && magic()[2] == 69 && magic()[3] == 67);
            assert(magic()[4] == 48 && magic()[5] == 48 && magic()[6] == 48 && magic()[7] == 49);
        }
    }
    r
}

proof fn lemma_le_value_bound(s: Seq<u8>)
    ensures
        0 <= le_value(s) < pow256(s.len()),
    decreases s.len(),
{
    if s.len() > 0 {
        lemma_le_value_bound(s.skip(1));
    }
}

/// Reads a stored spectrum. Bytes that begin like one but end before their header does are
/// not to be given.
pub fn read_cache(raw: &Vec<u8>) -> (r: Option<TrackSpec>)
    requires
        raw@.len() >= 16 && raw@.take(8) == magic() ==> raw@.len() >= 20,
    ensures
        match r {
            Some(t) => stored_spec(raw@) == Some(t@),
            None => stored_spec(raw@) is None,
        },
{
    if raw.len() < 16 || !begins_like_spec(raw) {
        return None;
    }
    let n: u64 = read_le(raw, 8, 4);
    let dur: u64 = read_le(raw, 12, 8);
    proof {
        lemma_le_value_bound(raw@.subrange(8, 12));
        reveal_with_fuel(pow256, 5);
    }
    if raw.len() as u64 != 20 + n * 256 {
        return None;
    }
    let mut frames: Vec<Vec<u32>> = Vec::new();
    let mut i: usize = 0;
    while i < n as usize
        invariant
            n == claimed_frames(raw@),
            raw.len() == 20 + n * 256,
            i <= n,
            n <= usize::MAX,
            frames.len() == i,
            forall|k: int| 0 <= k < i ==> (#[trigger] frames@[k])@ == frame_at(raw@, k),
        decreases n - i,
    {
        let mut bands: Vec<u32> = Vec::new();
        for b in 0..64usize
            invariant
                n == claimed_frames(raw@),
                raw.len() == 20 + n * 256,
                i < n,
                bands.len() == b,
                forall|k: int| 0 <= k < b ==> (#[trigger] bands@[k]) == band_at(raw@, i as int, k),
        {
            let o: usize = 20 + (i * 64 + b) * 4;
            let w: u64 = read_le(raw, o, 4);
            proof {
                lemma_le_value_bound(raw@.subrange(o as int, o + 4));
                reveal_with_fuel(pow256, 5);
            }
            bands.push(w as u32);
        }
        assert(bands@ == frame_at(raw@, i as int));
        frames.push(bands);
        i = i + 1;
    }
    let t = TrackSpec { frames, frame_dur: dur };
    assert(t@.frames == stored_spec(raw@)->0.frames);
    Some(t)
}

/// The samples of decoded audio, as the bits of their numbers: four bytes each, a rest is
/// dropped. None at all is an error.
pub open spec fn samples_of(bytes: Seq<u8>) -> Seq<u32> {
    Seq::new((bytes.len() / 4) as nat, |i: int| le_value(bytes.subrange(4 * i, 4 * i + 4)) as u32)
}

/// The samples of decoded audio.
pub fn decode_pcm(bytes: &Vec<u8>) -> (r: Result<Vec<u32>, String>)
    ensures
        match r {
            Ok(v) => v@ == samples_of(bytes@) && v@.len() > 0,
            Err(e) => samples_of(bytes@).len() == 0 && e@ == "no audio"@,
        },
{
    let mut r: Vec<u32> = Vec::new();
    let n: usize = bytes.len() / 4;
    for i in 0..n
        invariant
            n == bytes.len() / 4,
            r.len() == i,
            forall|k: int| 0 <= k < i ==> (#[trigger] r@[k]) == samples_of(bytes@)[k],
    {
        let w: u64 = read_le(bytes, 4 * i, 4);
        r.push(w as u32);
    }
    assert(r@ == samples_of(bytes@));
    if r.len() == 0 {
        return Err("no audio".to_owned());
    }
    Ok(r)
}

/// The arguments that ffmpeg decodes a file with.
pub open spec fn ffmpeg_arguments(path: Seq<char>) -> Seq<Seq<char>> {
    seq![
        "-v"@,
        "error"@,
        "-i"@,
        path,
        "-f"@,
        "f32le"@,
        "-ac"@,
        "1"@,
        "-ar"@,
        "22050"@,
        "-map"@,
        "a"@,
        "-"@,
    ]
}

/// The arguments that ffmpeg decodes a file with.
pub fn ffmpeg_args(path: &str) -> (r: Vec<String>)
    ensures
        views(r@) == ffmpeg_arguments(path@),
{
    let mut r: Vec<String> = Vec::new();
    r.push("-v".to_owned());
    r.push("error".to_owned());
    r.push("-i".to_owned());
    r.push(path.to_owned());
    r.push("-f".to_owned());
    r.push("f32le".to_owned());
    r.push("-ac".to_owned());
    r.push("1".to_owned());
    r.push("-ar".to_owned());
    r.push("22050".to_owned());
    r.push("-map".to_owned());
    r.push("a".to_owned());
    r.push("-".to_owned());
    assert(views(r@) == ffmpeg_arguments(path@));
    r
}

/// The key of a track: its hash in sixteen hexadecimal digits.
pub fn cache_key(hash: u64) -> (s: String)
    ensures
        s@ == hex_digits(hash as int, 16),
{
    hex_of(hash, 16)
}

/// The name of the file that a track's spectrum is stored in.
pub fn cache_name(key: &str) -> (s: String)
    ensures
        s@ == key@ + ".spec"@,
{
    cat2(key, ".spec")
}

/// Which spectra are at hand and which are being made, by key.
pub struct Shelf {
    pub held: Vec<String>,
    pub pending: Vec<String>,
}

impl Shelf {
    /// The keys of the spectra at hand.
    pub open spec fn keys(self) -> Seq<Seq<char>> {
        views(self.held@)
    }

    /// The keys of the spectra that are being made.
    pub open spec fn waiting(self) -> Seq<Seq<char>> {
        views(self.pending@)
    }

    /// No key is there twice.
    pub open spec fn wf(self) -> bool {
        self.keys().no_duplicates() && self.waiting().no_duplicates()
    }

    /// Whether a spectrum is at hand.
    pub fn has(&self, key: &str) -> (b: bool)
        ensures
            b == holds(self.keys(), key@),
    {
        list_has(&self.held, key)
    }

    /// Puts a spectrum that was read from its file on the shelf, where it is not yet: the
    /// oldest leave until there is room for two. Returns the keys of those that leave.
    pub fn spectrum_for(&mut self, key: &str) -> (gone: Vec<String>)
        requires
            old(self).wf(),
            !holds(old(self).keys(), key@),
        ensures
            final(self).wf(),
            final(self).waiting() == old(self).waiting(),
            final(self).keys() == old(self).keys().skip(views(gone@).len() as int).push(key@),
            views(gone@) == old(self).keys().take(views(gone@).len() as int),
            views(gone@).len() == if old(self).keys().len() >= 2 {
                old(self).keys().len() - 1
            } else {
                0
            },
    {
        let mut gone: Vec<String> = Vec::new();
        let ghost start = self.keys();
        assert(start.skip(0) == start);
        while self.held.len() >= 2
            invariant
                start == old(self).keys(),
                self.waiting() == old(self).waiting(),
                gone.len() <= start.len(),
                self.keys() == start.skip(gone.len() as int),
                views(gone@) == start.take(gone.len() as int),
                start.len() < 2 ==> gone.len() == 0,
                start.len() >= 2 ==> self.held.len() >= 1,
            decreases self.held.len(),
        {
            let ghost before = self.keys();
            let ghost out = views(gone@);
            assert(before.len() == self.held.len());
            let k = self.held.remove(0);
            assert(self.keys() == before.skip(1));
            assert(before.skip(1) == start.skip(gone.len() + 1));
            gone.push(k);
            assert(views(gone@) == out.push(before[0]));
        }
        assert(self.keys().len() == self.held.len());
        assert(views(gone@).len() == gone.len());
        let ghost left = self.keys();
        self.held.push(key.to_owned());
        proof {
            assert(self.keys() == left.push(key@));
            let now = self.keys();
            assert forall|i: int, j: int| 0 <= i < now.len() && 0 <= j < now.len() && i != j implies now[i]
                != now[j] by {
                if i < left.len() {
                    assert(now[i] == start[i + gone.len()]);
                }
                if j < left.len() {
                    assert(now[j] == start[j + gone.len()]);
                }
            }
        }
        gone
    }

    /// Whether a spectrum is to be made: not where it is at hand, stored or being made. It
    /// then is being made.
    pub fn request_analyze(&mut self, key: &str, stored: bool) -> (start: bool)
        requires
            old(self).wf(),
        ensures
            final(self).wf(),
            start == !(holds(old(self).keys(), key@) || stored || holds(old(self).waiting(), key@)),
            final(self).keys() == old(self).keys(),
            final(self).waiting() == if start {
                old(self).waiting().push(key@)
            } else {
                old(self).waiting()
            },
    {
        if list_has(&self.held, key) || stored || list_has(&self.pending, key) {
            return false;
        }
        let ghost before = self.waiting();
        self.pending.push(key.to_owned());
        proof {
            assert(self.waiting() == before.push(key@));
            lemma_push_new(before, key@);
        }
        true
    }

    /// A spectrum is made, or could not be: it is being made no more, and at hand if it is.
    pub fn analyzed(&mut self, key: &str, made: bool)
        requires
            old(self).wf(),
        ensures
            final(self).wf(),
            final(self).waiting() == old(self).waiting().filter(|k: Seq<char>| k != key@),
            final(self).keys() == if made && !holds(old(self).keys(), key@) {
                old(self).keys().push(key@)
            } else {
                old(self).keys()
            },
    {
        let mut rest: Vec<String> = Vec::new();
        let ghost all = self.waiting();
        let ghost p = |k: Seq<char>| k != key@;
        proof {
            reveal(Seq::filter);
            assert(views(rest@) == all.take(0).filter(p));
        }
        for i in 0..self.pending.len()
            invariant
                all == self.waiting(),
                p == (|k: Seq<char>| k != key@),
                views(rest@) == all.take(i as int).filter(p),
                self.keys() == old(self).keys(),
        {
            let ghost before = views(rest@);
            if !same(self.pending[i].as_str(), key) {
                rest.push(self.pending[i].clone());
                assert(views(rest@) == before.push(all[i as int]));
            }
            proof {
                lemma_filter_take(all, p, i as int);
            }
        }
        proof {
            assert(all.take(self.pending.len() as int) == all);
            lemma_filtered(all, p);
        }
        self.pending = rest;
        if made && !list_has(&self.held, key) {
            let ghost before = self.keys();
            self.held.push(key.to_owned());
            proof {
                assert(self.keys() == before.push(key@));
                lemma_push_new(before, key@);
            }
        }
    }
}

proof fn lemma_push_new(v: Seq<Seq<char>>, x: Seq<char>)
    requires
        v.no_duplicates(),
        !holds(v, x),
    ensures
        v.push(x).no_duplicates(),
{
    let w = v.push(x);
    assert forall|i: int, j: int| 0 <= i < w.len() && 0 <= j < w.len() && i != j implies w[i] != w[j] by {
        if i < v.len() {
            assert(v[i] != x);
        }
        if j < v.len() {
            assert(v[j] != x);
        }
    }
}

// ---- laws ----

/// Reversing the digits twice gives the number back.
pub proof fn law_reversed_twice(i: nat, bits: nat)
    requires
        i < two_to(bits),
    ensures
        reversed(reversed(i, bits), bits) == i,
    decreases bits,
{
    if bits > 0 {
        let b = (bits - 1) as nat;
        let p = two_to(b);
        lemma_two_to(b);
        lemma_reversed_bound(i / 2, b);
        law_reversed_twice(i / 2, b);
        lemma_reversed_top(i % 2, reversed(i / 2, b), b);
    }
}

proof fn lemma_reversed_top(t: nat, r: nat, b: nat)
    requires
        t < 2,
        r < two_to(b),
    ensures
        reversed(t * two_to(b) + r, (b + 1) as nat) == 2 * reversed(r, b) + t,
    decreases b,
{
    let n = (t * two_to(b) + r) as nat;
    if b == 0 {
        assert(t * 1 == t) by (nonlinear_arith);
        assert(n == t);
        reveal_with_fuel(reversed, 2);
        assert(reversed(n, 1) == (n % 2) * two_to(0) + reversed(n / 2, 0));
        assert((n % 2) * 1 == n % 2) by (nonlinear_arith);
    } else {
        let c = (b - 1) as nat;
        let q = two_to(c);
        assert(two_to(b) == 2 * q);
        assert(t * (2 * q) == 2 * (t * q)) by (nonlinear_arith);
        assert(n % 2 == r % 2);
        assert(n / 2 == t * q + r / 2);
        lemma_reversed_top(t, r / 2, c);
        assert(reversed(n, (b + 1) as nat) == (n % 2) * two_to(b) + reversed(n / 2, b));
        assert(reversed(r, b) == (r % 2) * q + reversed(r / 2, c));
        assert((r % 2) * (2 * q) == 2 * ((r % 2) * q)) by (nonlinear_arith);
    }
}

proof fn lemma_le_reads_back(n: int, width: nat)
    requires
        0 <= n < pow256(width),
    ensures
        le_value(le_bytes(n, width)) == n,
        le_bytes(n, width).len() == width,
    decreases width,
{
    if width > 0 {
        lemma_le_reads_back(n / 256, (width - 1) as nat);
        let s = le_bytes(n, width);
        assert(s.skip(1) == le_bytes(n / 256, (width - 1) as nat));
        assert(s[0] == (n % 256) as u8);
    }
}

proof fn lemma_word_bytes(ws: Seq<u32>, k: int)
    requires
        0 <= k < ws.len(),
    ensures
        word_bytes(ws).len() == 4 * ws.len(),
        word_bytes(ws).subrange(4 * k, 4 * k + 4) == le_bytes(ws[k] as int, 4),
    decreases ws.len(),
{
    reveal_with_fuel(pow256, 5);
    let t = ws.drop_last();
    lemma_le_reads_back(ws.last() as int, 4);
    lemma_word_bytes_len(t);
    if k < t.len() {
        lemma_word_bytes(t, k);
        assert(word_bytes(ws).subrange(4 * k, 4 * k + 4) == word_bytes(t).subrange(4 * k, 4 * k + 4));
    } else {
        assert(word_bytes(ws).subrange(4 * k, 4 * k + 4) == le_bytes(ws.last() as int, 4));
    }
}

proof fn lemma_word_bytes_len(ws: Seq<u32>)
    ensures
        word_bytes(ws).len() == 4 * ws.len(),
    decreases ws.len(),
{
    if ws.len() > 0 {
        reveal_with_fuel(pow256, 5);
        lemma_word_bytes_len(ws.drop_last());
        lemma_le_reads_back(ws.last() as int, 4);
    }
}

proof fn lemma_all_bands(frames: Seq<Seq<u32>>, i: int, b: int)
    requires
        forall|k: int| 0 <= k < frames.len() ==> (#[trigger] frames[k]).len() == 64,
        0 <= i < frames.len(),
        0 <= b < 64,
    ensures
        all_bands(frames).len() == 64 * frames.len(),
        all_bands(frames)[i * 64 + b] == frames[i][b],
    decreases frames.len(),
{
    let t = frames.drop_last();
    assert forall|k: int| 0 <= k < t.len() implies (#[trigger] t[k]).len() == 64 by {
        assert(frames[k].len() == 64);
    }
    assert(frames[frames.len() - 1].len() == 64);
    lemma_all_bands_len(t);
    if i < t.len() {
        lemma_all_bands(t, i, b);
        assert(t[i] == frames[i]);
    }
}

proof fn lemma_all_bands_len(frames: Seq<Seq<u32>>)
    requires
        forall|k: int| 0 <= k < frames.len() ==> (#[trigger] frames[k]).len() == 64,
    ensures
        all_bands(frames).len() == 64 * frames.len(),
    decreases frames.len(),
{
    if frames.len() > 0 {
        let t = frames.drop_last();
        assert forall|k: int| 0 <= k < t.len() implies (#[trigger] t[k]).len() == 64 by {
            assert(frames[k].len() == 64);
        }
        assert(frames[frames.len() - 1].len() == 64);
        lemma_all_bands_len(t);
    }
}

/// A spectrum that was stored is read back as it was.
pub proof fn law_spec_reads_back(t: SpecV)
    requires
        t.wf(),
        t.frames.len() <= u32::MAX,
    ensures
        stored_spec(stored_bytes(t)) == Some(t),
{
    reveal_with_fuel(pow256, 9);
    let n = t.frames.len();
    let raw = stored_bytes(t);
    let bands = all_bands(t.frames);
    lemma_all_bands_len(t.frames);
    lemma_word_bytes_len(bands);
    lemma_le_reads_back(n as int, 4);
    lemma_le_reads_back(t.frame_dur as int, 8);
    assert((n as u32) as int == n);
    assert(raw.take(8) == magic());
    assert(raw.subrange(8, 12) == le_bytes(n as int, 4));
    assert(raw.subrange(12, 20) == le_bytes(t.frame_dur as int, 8));
    assert(raw.len() == 20 + n * 64 * 4);
    let got = stored_spec(raw)->0;
    assert forall|i: int| 0 <= i < n implies #[trigger] got.frames[i] == t.frames[i] by {
        assert(t.frames[i].len() == 64);
        assert forall|b: int| 0 <= b < 64 implies frame_at(raw, i)[b] == t.frames[i][b] by {
            lemma_all_bands(t.frames, i, b);
            let k = i * 64 + b;
            lemma_word_bytes(bands, k);
            assert(raw.subrange(20 + k * 4, 20 + k * 4 + 4) == word_bytes(bands).subrange(4 * k, 4 * k + 4));
            lemma_le_reads_back(bands[k] as int, 4);
        }
        assert(frame_at(raw, i) == t.frames[i]);
    }
    assert(got.frames == t.frames);
}

/// The frames of a track cover it: each begins half a window behind the one before it, all lie
/// within it, and less than half a window is left behind the last.
pub proof fn law_frames_cover(len: int)
    requires
        len >= 2048,
    ensures
        frame_count(len) >= 1,
        (frame_count(len) - 1) * 1024 + 2048 <= len,
        len < frame_count(len) * 1024 + 2048,
        frame_count(2047) == 1 && frame_count(1) == 1 && frame_count(0) == 0,
{
}

/// What is stored of a spectrum begins with `SPEC0001`, the number of frames and the time between
/// them, and has four bytes for each of the 64 bands of each frame.
pub proof fn law_stored_spectrum(t: SpecV)
    requires
        t.wf(),
        t.frames.len() <= u32::MAX,
    ensures
        stored_bytes(t).take(8) == seq!['S' as u8, 'P' as u8, 'E' as u8, 'C' as u8, '0' as u8, '0' as u8, '0' as u8, '1' as u8],
        stored_bytes(t).len() == 20 + t.frames.len() * 64 * 4,
        claimed_frames(stored_bytes(t)) == t.frames.len(),
{
    law_spec_reads_back(t);
    let raw = stored_bytes(t);
    assert(raw.take(8) =~= seq!['S' as u8, 'P' as u8, 'E' as u8, 'C' as u8, '0' as u8, '0' as u8, '0' as u8, '1' as u8]);
    assert(stored_spec(raw) is Some);
    assert(stored_spec(raw)->0.frames.len() == t.frames.len());
}

/// Reversing puts the last binary digit first.
pub proof fn law_digits_reversed(i: nat, bits: nat)
    requires
        i < two_to(bits),
    ensures
        reversed(2 * i, bits + 1) == reversed(i, bits),
        reversed(2 * i + 1, bits + 1) == two_to(bits) + reversed(i, bits),
        reversed(0, 0) == 0,
        two_to(bits + 1) == 2 * two_to(bits),
{
    assert((2 * i) % 2 == 0 && (2 * i) / 2 == i);
    assert((2 * i + 1) % 2 == 1 && (2 * i + 1) / 2 == i);
    assert(0 * two_to(bits) == 0) by (nonlinear_arith);
    assert(1 * two_to(bits) == two_to(bits)) by (nonlinear_arith);
}

/// Each sample is read from its own four bytes, the smallest first; a rest is dropped.
pub proof fn law_samples_are_read(bytes: Seq<u8>, i: int)
    requires
        0 <= i < samples_of(bytes).len(),
    ensures
        samples_of(bytes).len() == bytes.len() / 4,
        samples_of(bytes)[i] == bytes[4 * i] + 256 * bytes[4 * i + 1] + 65536 * bytes[4 * i + 2] + 16777216 * bytes[4 * i + 3],
{
    let s = bytes.subrange(4 * i, 4 * i + 4);
    reveal_with_fuel(le_value, 5);
    assert(s.skip(1)[0] == s[1] && s.skip(1).skip(1)[0] == s[2] && s.skip(1).skip(1).skip(1)[0] == s[3]);
    assert(s[0] == bytes[4 * i] && s[1] == bytes[4 * i + 1] && s[2] == bytes[4 * i + 2] && s[3] == bytes[4 * i + 3]);
    assert(s.skip(1).skip(1).skip(1).skip(1).len() == 0);
    assert(le_value(s) == s[0] + 256 * s[1] + 65536 * s[2] + 16777216 * s[3]);
}

/// A file is decoded to one channel of 32-bit samples at the sample rate, to the standard output.
pub proof fn law_file_is_decoded(path: Seq<char>)
    ensures
        ({
            let a = ffmpeg_arguments(path);
            &&& exists|i: int| 0 <= i < a.len() - 1 && #[trigger] a[i] == "-i"@ && a[i + 1] == path
            &&& exists|i: int| 0 <= i < a.len() - 1 && #[trigger] a[i] == "-ar"@ && a[i + 1] == "22050"@
            &&& exists|i: int| 0 <= i < a.len() - 1 && #[trigger] a[i] == "-ac"@ && a[i + 1] == "1"@
            &&& exists|i: int| 0 <= i < a.len() - 1 && #[trigger] a[i] == "-f"@ && a[i + 1] == "f32le"@
            &&& a.last() == "-"@
        }),
{
    let a = ffmpeg_arguments(path);
    assert(a[2] == "-i"@ && a[3] == path && a[8] == "-ar"@ && a[9] == "22050"@);
    assert(a[6] == "-ac"@ && a[7] == "1"@ && a[4] == "-f"@ && a[5] == "f32le"@);
}

/// The bars rise with their level: the lowest is blank, and each next one is the block that is an
/// eighth higher.
pub proof fn law_bars_rise(i: int)
    requires
        0 <= i < glyphs().len(),
    ensures
        glyphs().len() == 8,
        glyphs()[0] == ' ',
        i > 0 ==> glyphs()[i] as int == 0x2580 + i,
{
}

} // verus!
