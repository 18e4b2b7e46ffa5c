use babelcomics::topology::{
    binary_topology_stats, count_components, neighbors4, parse_flag_value, threshold_image_above,
    threshold_image_below, truncate_label, TopologicalSignatureFlow,
};

fn ring_pixels(width: u32, height: u32, inner: f32, outer: f32) -> Vec<u8> {
    let cx = width as f32 / 2.0;
    let cy = height as f32 / 2.0;
    let mut out = Vec::new();
    for y in 0..height {
        for x in 0..width {
            let dx = x as f32 - cx;
            let dy = y as f32 - cy;
            let d2 = dx * dx + dy * dy;
            let inside = d2 >= inner * inner && d2 <= outer * outer;
            out.push(if inside { 230 } else { 18 });
        }
    }
    out
}

#[test]
fn count_components_detects_two_islands() {
    let width = 4usize;
    let height = 4usize;
    let binary = vec![
        1, 1, 0, 0, //
        1, 1, 0, 0, //
        0, 0, 1, 1, //
        0, 0, 1, 1,
    ];
    assert_eq!(count_components(&binary, width, height, 1), 2);
}

#[test]
fn holes_detect_ring_shape() {
    let img = ring_pixels(64, 64, 12.0, 20.0);
    let binary = threshold_image_above(&img, 120);
    let stats = binary_topology_stats(&binary);
    assert!(stats.holes >= 1);
}

#[test]
fn embedding_has_requested_dimension() {
    let tsf = TopologicalSignatureFlow { embedding_dim: 96, ..Default::default() };
    let fitted = tsf.fit_embedding_dim(vec![1.0f32; 32], 0.0);
    assert_eq!(fitted.len(), 96);
}

#[test]
fn embedding_is_cut_to_dimension() {
    let tsf = TopologicalSignatureFlow { embedding_dim: 3, ..Default::default() };
    let fitted = tsf.fit_embedding_dim(vec![1u8, 2, 3, 4, 5], 0);
    assert_eq!(fitted, vec![1, 2, 3]);
    let tsf = TopologicalSignatureFlow { embedding_dim: 4, ..Default::default() };
    assert_eq!(tsf.fit_embedding_dim(vec![7u8, 8], 0), vec![7, 8, 0, 0]);
}

#[test]
fn default_flow_configuration() {
    let tsf = TopologicalSignatureFlow::default();
    assert_eq!(tsf.diffusion_steps, 5);
    assert_eq!(tsf.n_landscape_functions, 3);
    assert_eq!(tsf.n_landscape_samples, 50);
    assert_eq!(tsf.embedding_dim, 128);
    assert_eq!(tsf.resize_to, 128);
}

#[test]
fn components_of_background_and_diagonals() {
    // diagonal cells are not 4-connected
    let binary = vec![1, 0, 0, 1];
    assert_eq!(count_components(&binary, 2, 2, 1), 2);
    assert_eq!(count_components(&binary, 2, 2, 0), 2);
    let all = vec![1u8; 9];
    assert_eq!(count_components(&all, 3, 3, 1), 1);
    assert_eq!(count_components(&all, 3, 3, 0), 0);
}

#[test]
fn framed_square_counts_background() {
    let binary = vec![
        1, 1, 1, //
        1, 0, 1, //
        1, 1, 1,
    ];
    let stats = binary_topology_stats(&binary);
    assert_eq!(stats.components, 1);
    // the single background cell is one background component, the outer one
    assert_eq!(stats.holes, 0);
}

#[test]
fn non_square_image_has_no_stats() {
    let stats = binary_topology_stats(&[1, 1, 1]);
    assert_eq!(stats.components, 0);
    assert_eq!(stats.holes, 0);
    let empty = binary_topology_stats(&[]);
    assert_eq!(empty.components, 0);
}

#[test]
fn neighbours_are_clamped() {
    let n = neighbors4(0, 0, 3, 3);
    assert_eq!(n, [(0, 0), (1, 0), (0, 0), (0, 1)]);
    let n = neighbors4(2, 2, 3, 3);
    assert_eq!(n, [(1, 2), (2, 2), (2, 1), (2, 2)]);
}

#[test]
fn thresholds_split_pixels() {
    let px = vec![10, 120, 200];
    assert_eq!(threshold_image_above(&px, 120), vec![0, 1, 1]);
    assert_eq!(threshold_image_below(&px, 120), vec![1, 1, 0]);
}

#[test]
fn flag_values_and_labels() {
    let args: Vec<String> = vec!["--out".into(), "idx.json".into(), "--k".into(), "7".into()];
    assert_eq!(parse_flag_value(&args, "--k"), Some("7".to_string()));
    assert_eq!(parse_flag_value(&args, "--out"), Some("idx.json".to_string()));
    assert_eq!(parse_flag_value(&args, "--x"), None);
    let last: Vec<String> = vec!["--k".into()];
    assert_eq!(parse_flag_value(&last, "--k"), None);
    assert_eq!(truncate_label("abcdefghijkl"), "abcdefghi");
    assert_eq!(truncate_label("añb"), "añb");
}

#[test]
fn components_never_exceed_cells() {
    let img = vec![1u8, 0, 1, 0, 1, 0, 1, 0, 1];
    let n = count_components(&img, 3, 3, 1);
    assert_eq!(n, 5);
    assert!(n <= img.iter().filter(|&&v| v == 1).count());
    assert_eq!(count_components(&img, 3, 3, 7), 0);
}
