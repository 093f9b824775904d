use pattern_audio::channel::{chunk_channel, SendOutcome};
use pattern_audio::chunk::Chunk;
use pattern_audio::constants::{AUDIO_CHUNK_LEN, AUDIO_TRAIL_OFFSET};
use pattern_audio::synth::CrossfadeSynth;

fn chunk4(v: [i16; 4]) -> Chunk<4> {
    Chunk::<4>::from_halved(v.to_vec()).unwrap()
}

fn chunk8(v: [i16; 8]) -> Chunk<8> {
    Chunk::<8>::from_halved(v.to_vec()).unwrap()
}

/// Runs one cycle of `n` samples, offering `incoming` at its first sample.
fn cycle<const N: usize>(s: &mut CrossfadeSynth<N>, incoming: Option<Chunk<N>>) -> Vec<i16> {
    let mut out = Vec::new();
    let mut incoming = incoming;
    for _ in 0..N {
        if s.needs_chunk() {
            out.push(s.step(incoming.take()));
        } else {
            out.push(s.step(None));
        }
    }
    out
}

#[test]
fn scenario_two_chunks_crossfade() {
    let mut s = CrossfadeSynth::<4>::new(2);
    let a = cycle(&mut s, Some(chunk4([100, 200, 300, 400])));
    assert_eq!(a, vec![100, 200, 300, 400]);
    let b = cycle(&mut s, Some(chunk4([500, 600, 700, 800])));
    assert_eq!(b, vec![500 + 300, 600 + 400, 700 + 100, 800 + 200]);
}

#[test]
fn scenario_through_channel() {
    let (tx, rx) = chunk_channel::<4>(1);
    let mut s = CrossfadeSynth::<4>::new(2);
    assert_eq!(tx.send(chunk4([100, 200, 300, 400])), SendOutcome::Sent);
    let a: Vec<i16> = (0..4).map(|_| s.next_sample(&rx)).collect();
    assert_eq!(a, vec![100, 200, 300, 400]);
    assert_eq!(tx.send(chunk4([500, 600, 700, 800])), SendOutcome::Sent);
    let b: Vec<i16> = (0..4).map(|_| s.next_sample(&rx)).collect();
    assert_eq!(b, vec![800, 1000, 800, 1000]);
}

#[test]
fn silence_before_any_chunk() {
    let mut s = CrossfadeSynth::<8>::new(4);
    for _ in 0..3 {
        assert_eq!(cycle(&mut s, None), vec![0; 8]);
    }
}

#[test]
fn silence_at_start_of_full_size_stream() {
    let (_tx, rx) = chunk_channel::<AUDIO_CHUNK_LEN>(1);
    let mut s = CrossfadeSynth::<AUDIO_CHUNK_LEN>::new(AUDIO_TRAIL_OFFSET);
    for _ in 0..AUDIO_CHUNK_LEN {
        assert_eq!(s.next_sample(&rx), 0);
    }
}

#[test]
fn hold_last_chunk_when_starved() {
    let mut s = CrossfadeSynth::<4>::new(2);
    let first = cycle(&mut s, Some(chunk4([1, 2, 3, 4])));
    assert_eq!(first, vec![1, 2, 3, 4]);
    let held = cycle(&mut s, None);
    assert_eq!(held, vec![1 + 3, 2 + 4, 3 + 1, 4 + 2]);
    for _ in 0..5 {
        assert_eq!(cycle(&mut s, None), held);
    }
}

#[test]
fn hold_last_after_transition() {
    let mut s = CrossfadeSynth::<4>::new(1);
    cycle(&mut s, Some(chunk4([10, 20, 30, 40])));
    let mixed = cycle(&mut s, Some(chunk4([-5, -6, -7, -8])));
    assert_eq!(mixed, vec![-5 + 20, -6 + 30, -7 + 40, -8 + 10]);
    let held = cycle(&mut s, None);
    assert_eq!(held, vec![-5 - 6, -6 - 7, -7 - 8, -8 - 5]);
    assert_eq!(cycle(&mut s, None), held);
}

#[test]
fn windowed_chunks_join_without_jumps() {
    let chunks: [[i16; 8]; 3] = [
        [0, 40, 80, 120, 160, 120, 80, 40],
        [0, 50, 100, 150, 200, 150, 100, 50],
        [0, 45, 90, 135, 180, 135, 90, 45],
    ];
    let largest_delta = chunks
        .iter()
        .flat_map(|c| c.windows(2).map(|w| (w[1] - w[0]).abs()))
        .max()
        .unwrap();
    let mut s = CrossfadeSynth::<8>::new(4);
    let mut out = Vec::new();
    out.extend(cycle(&mut s, Some(chunk8(chunks[0]))));
    out.extend(cycle(&mut s, None));
    out.extend(cycle(&mut s, Some(chunk8(chunks[1]))));
    out.extend(cycle(&mut s, Some(chunk8(chunks[2]))));
    out.extend(cycle(&mut s, None));
    for w in out[8..].windows(2) {
        assert!((w[1] - w[0]).abs() <= largest_delta, "{:?}", w);
    }
}

#[test]
fn trail_offset_wraps_modulo_length() {
    let mut a = CrossfadeSynth::<4>::new(1);
    let mut b = CrossfadeSynth::<4>::new(5);
    let c = [7, -3, 11, 2];
    assert_eq!(cycle(&mut a, Some(chunk4(c))), cycle(&mut b, Some(chunk4(c))));
    assert_eq!(cycle(&mut a, None), cycle(&mut b, None));
    assert_eq!(cycle(&mut a, None), vec![7 - 3, -3 + 11, 11 + 2, 2 + 7]);
}

#[test]
fn extremes_sum_within_range() {
    let mut s = CrossfadeSynth::<2>::new(0);
    let lo = Chunk::<2>::from_halved(vec![-16384, 16383]).unwrap();
    cycle(&mut s, Some(lo));
    assert_eq!(cycle(&mut s, None), vec![-32768, 32766]);
}

#[test]
fn fill_buffer_replicates_each_frame() {
    let (tx, rx) = chunk_channel::<4>(1);
    let mut s = CrossfadeSynth::<4>::new(2);
    assert_eq!(tx.send(chunk4([100, 200, 300, 400])), SendOutcome::Sent);
    let mut out = [9i16; 7];
    s.fill_buffer(&rx, &mut out, 2);
    assert_eq!(out, [100, 100, 200, 200, 300, 300, 400]);
    let mut next = [0i16; 3];
    s.fill_buffer(&rx, &mut next, 3);
    assert_eq!(next, [300 + 100, 300 + 100, 300 + 100]);
}

#[test]
fn fill_buffer_takes_chunk_at_boundary_only() {
    let (tx, rx) = chunk_channel::<4>(1);
    let mut s = CrossfadeSynth::<4>::new(2);
    assert_eq!(tx.send(chunk4([1, 2, 3, 4])), SendOutcome::Sent);
    let mut out = [0i16; 2];
    s.fill_buffer(&rx, &mut out, 1);
    assert_eq!(out, [1, 2]);
    assert_eq!(tx.send(chunk4([10, 20, 30, 40])), SendOutcome::Sent);
    let mut rest = [0i16; 2];
    s.fill_buffer(&rx, &mut rest, 1);
    assert_eq!(rest, [3, 4]);
    let mut after = [0i16; 4];
    s.fill_buffer(&rx, &mut after, 1);
    assert_eq!(after, [10 + 3, 20 + 4, 30 + 1, 40 + 2]);
}

#[test]
fn fill_buffer_empty_output_takes_nothing() {
    let (tx, rx) = chunk_channel::<4>(1);
    let mut s = CrossfadeSynth::<4>::new(2);
    assert_eq!(tx.send(chunk4([1, 2, 3, 4])), SendOutcome::Sent);
    let mut out: [i16; 0] = [];
    s.fill_buffer(&rx, &mut out, 2);
    assert!(s.needs_chunk());
    assert_eq!(s.next_sample(&rx), 1);
}
