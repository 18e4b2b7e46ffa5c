use babelcomics::demo_images::{generate_checkerboard, generate_noise, generate_stripes};

#[test]
fn checkerboard_alternates_tiles() {
    let img = generate_checkerboard(4, 2, 2);
    assert_eq!(img, vec![32, 32, 224, 224, 32, 32, 224, 224]);
    let img = generate_checkerboard(2, 2, 1);
    assert_eq!(img, vec![32, 224, 224, 32]);
}

#[test]
fn stripes_follow_columns() {
    let img = generate_stripes(6, 2, 2);
    assert_eq!(img, vec![210, 210, 40, 40, 210, 210, 210, 210, 40, 40, 210, 210]);
}

#[test]
fn noise_is_reproducible_lcg() {
    let img = generate_noise(3, 2);
    assert_eq!(img.len(), 6);
    let mut state = 0x1234_5678u64;
    for k in 0..6 {
        state = state.wrapping_mul(6364136223846793005).wrapping_add(1);
        assert_eq!(img[k], ((state >> 24) & 0xff) as u8);
    }
    assert_eq!(generate_noise(3, 2), img);
    assert!(generate_noise(0, 5).is_empty());
}
