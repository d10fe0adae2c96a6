use opengl_rust::terrain::{strip_index_count, terrain_indices};

#[test]
fn single_cell_strip() {
    assert_eq!(terrain_indices(1, 1), vec![0, 0, 2, 1, 3, 3]);
}

#[test]
fn two_by_two_strip_joins_rows_with_degenerate_triangles() {
    // Vertex rows: 0 1 2 / 3 4 5 / 6 7 8
    assert_eq!(
        terrain_indices(2, 2),
        vec![0, 0, 3, 1, 4, 2, 5, 5, 3, 3, 6, 4, 7, 5, 8, 8]
    );
}

#[test]
fn empty_patch_has_no_indices() {
    assert!(terrain_indices(5, 0).is_empty());
    assert_eq!(terrain_indices(0, 2), vec![0, 0, 1, 1, 1, 1, 2, 2]);
}

#[test]
fn index_count_matches_strip_length() {
    for (w, h) in [(1usize, 1usize), (2, 3), (32, 32), (7, 1), (0, 4)] {
        assert_eq!(terrain_indices(w, h).len(), strip_index_count(w, h));
        assert_eq!(strip_index_count(w, h), 2 * (w + 2) * h);
    }
    assert_eq!(strip_index_count(32, 32), 2176);
}

#[test]
fn indices_stay_inside_the_vertex_grid() {
    let (w, h) = (32usize, 32usize);
    let vertices = (w + 1) * (h + 1);
    assert!(terrain_indices(w, h).iter().all(|&i| (i as usize) < vertices));
}

#[test]
fn large_patches_wrap_indices_to_sixteen_bits() {
    // Row 1 of a 70000-wide patch starts at vertex 70001, stored as 70001 - 65536.
    let indices = terrain_indices(70000, 1);
    assert_eq!(indices[2], (70001 % 65536) as u16);
    assert_eq!(indices.len(), 2 * 70002);
}

#[test]
fn every_cell_is_drawn_by_two_strip_triangles() {
    let (w, h) = (3usize, 2usize);
    let strip = terrain_indices(w, h);
    let vertex = |x: usize, y: usize| (y * (w + 1) + x) as u16;
    for y in 0..h {
        let first = 2 * (w + 2) * y;
        assert_eq!(strip[first], strip[first + 1]);
        let last = first + 2 * (w + 2) - 1;
        assert_eq!(strip[last], strip[last - 1]);
        for x in 0..w {
            let k = first + 1 + 2 * x;
            assert_eq!(
                &strip[k..k + 4],
                &[vertex(x, y), vertex(x, y + 1), vertex(x + 1, y), vertex(x + 1, y + 1)]
            );
        }
    }
}
