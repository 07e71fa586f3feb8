use spaceship::mesh::{gather, gather_or, grid_indices};

#[test]
fn grid_of_three_by_three() {
    let idx = grid_indices(3, 3);
    assert_eq!(idx.len(), 24);
    assert_eq!(&idx[0..6], &[0, 3, 4, 0, 4, 1]);
    assert_eq!(&idx[6..12], &[1, 4, 5, 1, 5, 2]);
    assert_eq!(&idx[18..24], &[4, 7, 8, 4, 8, 5]);
    assert!(idx.iter().all(|&i| i < 9));
}

#[test]
fn sphere_grid_size() {
    let idx = grid_indices(50, 50);
    assert_eq!(idx.len(), 6 * 49 * 49);
    assert!(idx.iter().all(|&i| i < 2500));
}

#[test]
fn degenerate_grids_are_empty() {
    assert!(grid_indices(1, 5).is_empty());
    assert!(grid_indices(5, 1).is_empty());
}

#[test]
fn gather_follows_indices() {
    let items = vec!['a', 'b', 'c'];
    assert_eq!(gather(&items, &vec![2, 0, 0, 1]), vec!['c', 'a', 'a', 'b']);
    assert!(gather(&items, &vec![]).is_empty());
}

#[test]
fn gather_or_falls_back() {
    let items = vec![10u32, 20];
    assert_eq!(gather_or(&items, &vec![1, 5, 0], 7), vec![20, 7, 10]);
}
