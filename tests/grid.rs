use pattern_audio::debug_controls::DebugControls;
use pattern_audio::grid::{random_uv_push, write_uv_quads};

const PLAIN: [u8; 8] = [0, 0, 0, 1, 1, 0, 1, 1];
const MIRRORED: [u8; 8] = [1, 0, 1, 1, 0, 0, 0, 1];

#[test]
fn quads_follow_flips() {
    let mut uv = [7u8; 24];
    write_uv_quads(&mut uv, &[false, true, false]);
    assert_eq!(&uv[0..8], &PLAIN);
    assert_eq!(&uv[8..16], &MIRRORED);
    assert_eq!(&uv[16..24], &PLAIN);
}

#[test]
fn empty_grid_is_left_empty() {
    let mut uv: [u8; 0] = [];
    write_uv_quads(&mut uv, &[]);
    random_uv_push(&mut uv);
}

#[test]
fn random_quads_are_plain_or_mirrored() {
    let mut uv = vec![7u8; 8 * 64];
    random_uv_push(&mut uv);
    for quad in uv.chunks(8) {
        assert!(quad == PLAIN || quad == MIRRORED, "{:?}", quad);
    }
}

#[test]
fn debug_controls_start_empty() {
    assert_eq!(DebugControls::new(), DebugControls {});
}
