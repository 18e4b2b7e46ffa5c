use babelcomics::cover_hash::{compute_hash, count_ones, distance, dhash_bits, format_hex16, parse_hex_u64, similarity_label};

fn png_of(pixels: &[u8]) -> Vec<u8> {
    let img = image::GrayImage::from_raw(9, 8, pixels.to_vec()).unwrap();
    let mut out = Vec::new();
    img.write_to(&mut std::io::Cursor::new(&mut out), image::ImageFormat::Png).unwrap();
    out
}

#[test]
fn identical_hashes_are_at_distance_zero() {
    assert_eq!(distance("00ff00ff00ff00ff", "00ff00ff00ff00ff"), Some(0));
}

#[test]
fn opposite_hashes_are_at_distance_64() {
    assert_eq!(distance("ffffffffffffffff", "0000000000000000"), Some(64));
    assert_eq!(distance("0000000000000000", "ffffffffffffffff"), Some(64));
}

#[test]
fn distance_counts_differing_bits() {
    assert_eq!(distance("0000000000000001", "0000000000000003"), Some(1));
    assert_eq!(distance("F0", "0f"), Some(8));
}

#[test]
fn invalid_hash_has_no_distance() {
    assert_eq!(distance("xyz", "0000000000000000"), None);
    assert_eq!(distance("0000000000000000", ""), None);
    assert_eq!(distance("10000000000000000", "0"), None);
}

#[test]
fn hex_round_trip() {
    assert_eq!(format_hex16(0), "0000000000000000");
    assert_eq!(format_hex16(0xdead_beef), "00000000deadbeef");
    assert_eq!(parse_hex_u64("00000000deadbeef"), Some(0xdead_beef));
    assert_eq!(parse_hex_u64("+ff"), Some(255));
    assert_eq!(parse_hex_u64("-1"), None);
    assert_eq!(count_ones(u64::MAX), 64);
    assert_eq!(count_ones(0b1011), 3);
}

#[test]
fn hash_bits_follow_pixel_comparisons() {
    let mut px = vec![0u8; 72];
    // first row: left brighter than right at x = 0 only
    px[0] = 200;
    for x in 1..9 {
        px[x] = 100;
    }
    let h = dhash_bits(&px);
    assert_eq!(h, 1);
}

#[test]
fn decreasing_rows_hash_to_all_ones() {
    let mut px = Vec::new();
    for _y in 0..8 {
        for x in 0..9u8 {
            px.push(250 - x * 20);
        }
    }
    assert_eq!(compute_hash(&png_of(&px)), Some("ffffffffffffffff".to_string()));
}

#[test]
fn increasing_rows_hash_to_zero() {
    let mut px = Vec::new();
    for _y in 0..8 {
        for x in 0..9u8 {
            px.push(10 + x * 20);
        }
    }
    assert_eq!(compute_hash(&png_of(&px)), Some("0000000000000000".to_string()));
}

#[test]
fn undecodable_bytes_have_no_hash() {
    assert_eq!(compute_hash(b"not an image"), None);
}

#[test]
fn similarity_labels() {
    assert_eq!(similarity_label(0), "Coincidencia exacta");
    assert_eq!(similarity_label(5), "Coincidencia exacta");
    assert_eq!(similarity_label(6), "Muy similar");
    assert_eq!(similarity_label(25), "Similar");
    assert_eq!(similarity_label(35), "Posible coincidencia");
    assert_eq!(similarity_label(40), "Similitud baja (distancia 40)");
}

#[test]
fn distance_obeys_triangle_inequality() {
    let hs = ["0000000000000000", "00000000000000ff", "ff000000000000f0", "ffffffffffffffff"];
    for a in hs {
        for b in hs {
            for c in hs {
                let ac = distance(a, c).unwrap();
                let ab = distance(a, b).unwrap();
                let bc = distance(b, c).unwrap();
                assert!(ac <= ab + bc);
            }
        }
    }
}
