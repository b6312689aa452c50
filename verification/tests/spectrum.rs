use siren::spectrum::{
    bar_glyph, cache_key, cache_name, decode_pcm, ffmpeg_args, frame_starts, read_cache, reverse_bits, swap_pairs, write_cache,
    Shelf, TrackSpec, BANDS, HOP, SAMPLE_RATE, WINDOW,
};

#[test]
fn frames_overlap_by_half() {
    assert_eq!(frame_starts(0), Vec::<usize>::new());
    assert_eq!(frame_starts(100), vec![0]);
    assert_eq!(frame_starts(WINDOW), vec![0]);
    assert_eq!(frame_starts(WINDOW + HOP), vec![0, HOP]);
    assert_eq!(frame_starts(WINDOW + HOP - 1), vec![0]);
}

#[test]
fn bars_have_eight_levels() {
    let all: String = (0..8).map(bar_glyph).collect();
    assert_eq!(all, " ▁▂▃▄▅▆▇");
}

#[test]
fn bits_are_reversed() {
    for i in 0..2048usize {
        let r = reverse_bits(i, 11);
        assert_eq!(r, (i as u32).reverse_bits() as usize >> 21);
        assert_eq!(reverse_bits(r, 11), i);
    }
}

#[test]
fn pairs_to_exchange_are_those_of_the_transform() {
    let n = 16usize;
    let mut want = Vec::new();
    let mut j = 0usize;
    for i in 1..n {
        let mut bit = n >> 1;
        while j & bit != 0 {
            j &= !bit;
            bit >>= 1;
        }
        j |= bit;
        if i < j {
            want.push((i, j));
        }
    }
    assert_eq!(swap_pairs(4), want);
}

#[test]
fn a_stored_spectrum_reads_back() {
    let t = TrackSpec {
        frames: vec![(0..BANDS as u32).collect(), vec![(0.5f32).to_bits(); BANDS]],
        frame_dur: (HOP as f64 / SAMPLE_RATE as f64).to_bits(),
    };
    let raw = write_cache(&t);
    assert_eq!(raw.len(), 20 + 2 * BANDS * 4);
    assert_eq!(&raw[..8], b"SPEC0001");
    assert_eq!(&raw[8..12], &2u32.to_le_bytes());
    let back = read_cache(&raw).unwrap();
    assert_eq!(back.frames, t.frames);
    assert_eq!(back.frame_dur, t.frame_dur);
    let mut short = raw.clone();
    short.pop();
    assert!(read_cache(&short).is_none());
    let mut other = raw;
    other[0] = 0;
    assert!(read_cache(&other).is_none());
    assert!(read_cache(&vec![1, 2, 3]).is_none());
}

#[test]
fn samples_are_four_bytes_each() {
    let mut bytes = Vec::new();
    for x in [0.25f32, -1.0] {
        bytes.extend_from_slice(&x.to_le_bytes());
    }
    bytes.push(9);
    assert_eq!(decode_pcm(&bytes), Ok(vec![(0.25f32).to_bits(), (-1.0f32).to_bits()]));
    assert_eq!(decode_pcm(&vec![1, 2, 3]), Err("no audio".to_string()));
}

#[test]
fn decoding_is_asked_for() {
    assert_eq!(
        ffmpeg_args("/x"),
        vec!["-v", "error", "-i", "/x", "-f", "f32le", "-ac", "1", "-ar", "22050", "-map", "a", "-"]
    );
    assert_eq!(cache_key(0xab), "00000000000000ab");
    assert_eq!(cache_name("k"), "k.spec");
}

#[test]
fn the_shelf_holds_two() {
    let mut s = Shelf { held: Vec::new(), pending: Vec::new() };
    assert!(s.request_analyze("a", false));
    assert!(!s.request_analyze("a", false));
    assert!(!s.request_analyze("b", true));
    s.analyzed("a", true);
    assert!(s.has("a"));
    assert!(s.spectrum_for("b").is_empty());
    assert_eq!(s.spectrum_for("c"), vec!["a"]);
    assert!(s.has("b") && s.has("c") && !s.has("a"));
    assert!(s.request_analyze("d", false));
    s.analyzed("d", false);
    assert!(!s.has("d"));
    assert!(s.request_analyze("d", false));
}
