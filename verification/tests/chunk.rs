use opengl_rust::chunk::{chunk_window, plan_chunk_update, ChunkPosition};
use std::collections::HashSet;

#[test]
fn window_around_origin_is_five_by_five() {
    let window = chunk_window(0, 0);
    assert_eq!(window.len(), 25);
    assert_eq!(window[0], (-2, -2));
    assert_eq!(window[1], (-1, -2));
    assert_eq!(window[5], (-2, -1));
    assert_eq!(window[12], (0, 0));
    assert_eq!(window[24], (2, 2));
}

#[test]
fn window_follows_the_camera_chunk() {
    let window = chunk_window(10, -3);
    assert_eq!(window[0], (8, -5));
    assert_eq!(window[24], (12, -1));
}

#[test]
fn nothing_changes_when_the_camera_stays() {
    let loaded = chunk_window(0, 0);
    let update = plan_chunk_update(&loaded, 0, 0);
    assert!(update.remove.is_empty());
    assert!(update.add.is_empty());
}

#[test]
fn moving_one_chunk_swaps_one_column() {
    let loaded = chunk_window(0, 0);
    let update = plan_chunk_update(&loaded, 1, 0);
    assert_eq!(update.remove, vec![(-2, -2), (-2, -1), (-2, 0), (-2, 1), (-2, 2)]);
    assert_eq!(update.add, vec![(3, -2), (3, -1), (3, 0), (3, 1), (3, 2)]);
}

#[test]
fn update_always_leaves_the_window_loaded() {
    let starts: Vec<Vec<ChunkPosition>> = vec![
        vec![],
        chunk_window(0, 0),
        vec![(100, 100), (0, 0), (1, 1)],
        chunk_window(-7, 4),
    ];
    for loaded in starts {
        for (cx, cy) in [(0, 0), (1, 2), (-7, 4), (50, -50)] {
            let update = plan_chunk_update(&loaded, cx, cy);
            let mut now: HashSet<ChunkPosition> = loaded.iter().copied().collect();
            for key in &update.remove {
                assert!(now.remove(key));
            }
            for key in &update.add {
                assert!(now.insert(*key));
            }
            let window: HashSet<ChunkPosition> = chunk_window(cx, cy).into_iter().collect();
            assert_eq!(now, window);
        }
    }
}

#[test]
fn window_near_the_end_of_the_range() {
    let window = chunk_window(i32::MAX - 2, i32::MIN + 2);
    assert_eq!(window[24], (i32::MAX, i32::MIN + 4));
    assert_eq!(window[0], (i32::MAX - 4, i32::MIN));
}
