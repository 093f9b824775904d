use pattern_audio::chunk::{Chunk, HALF_MAX, HALF_MIN};

#[test]
fn from_row_halves_toward_zero() {
    let c = Chunk::<6>::from_row(&[32767, -32768, 3, -3, 0, 1]).unwrap();
    assert_eq!(c.to_vec(), vec![16383, -16384, 1, -1, 0, 0]);
}

#[test]
fn from_row_rejects_wrong_length() {
    assert!(Chunk::<4>::from_row(&[1, 2, 3]).is_none());
    assert!(Chunk::<4>::from_row(&[1, 2, 3, 4, 5]).is_none());
}

#[test]
fn from_halved_accepts_range_edges() {
    let c = Chunk::<2>::from_halved(vec![HALF_MIN, HALF_MAX]).unwrap();
    assert_eq!(c.get(0), -16384);
    assert_eq!(c.get(1), 16383);
}

#[test]
fn from_halved_rejects_out_of_range() {
    assert!(Chunk::<2>::from_halved(vec![0, 16384]).is_none());
    assert!(Chunk::<2>::from_halved(vec![-16385, 0]).is_none());
}

#[test]
fn from_halved_rejects_wrong_length() {
    assert!(Chunk::<2>::from_halved(vec![0]).is_none());
    assert!(Chunk::<0>::from_halved(vec![]).is_some());
}

#[test]
fn silent_chunk_is_zeros() {
    assert_eq!(Chunk::<5>::silent().to_vec(), vec![0; 5]);
}
