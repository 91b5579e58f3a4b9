use gilt_and_iron::mesh::{fan_indices, grid_indices, strip_indices};

#[test]
fn strip_joins_each_cross_section_to_the_next() {
    assert_eq!(strip_indices(0, 2), vec![0, 1, 2, 2, 1, 3]);
    assert_eq!(
        strip_indices(10, 4),
        vec![10, 11, 12, 12, 11, 13, 12, 13, 14, 14, 13, 15, 14, 15, 16, 16, 15, 17]
    );
}

#[test]
fn strip_of_one_cross_section_has_no_triangles() {
    assert!(strip_indices(5, 1).is_empty());
    assert!(strip_indices(5, 0).is_empty());
    assert!(strip_indices(u32::MAX, 0).is_empty());
}

#[test]
fn strip_reaches_the_last_vertex() {
    let indices = strip_indices(u32::MAX - 6, 3);
    assert_eq!(indices.len(), 12);
    assert_eq!(indices[11], u32::MAX - 1);
}

#[test]
fn fan_goes_round_the_rim_and_closes() {
    assert_eq!(fan_indices(0, 3), vec![0, 2, 1, 0, 3, 2, 0, 1, 3]);
    let twelve = fan_indices(100, 12);
    assert_eq!(twelve.len(), 36);
    assert_eq!(&twelve[..6], &[100, 102, 101, 100, 103, 102]);
    assert_eq!(&twelve[33..], &[100, 101, 112]);
    assert_eq!(fan_indices(7, 1), vec![7, 8, 8]);
    assert!(fan_indices(7, 0).is_empty());
}

#[test]
fn grid_has_two_triangles_to_a_cell() {
    assert_eq!(grid_indices(2), vec![0, 2, 1, 1, 2, 3]);
    assert_eq!(
        grid_indices(3),
        vec![0, 3, 1, 1, 3, 4, 1, 4, 2, 2, 4, 5, 3, 6, 4, 4, 6, 7, 4, 7, 5, 5, 7, 8]
    );
    assert!(grid_indices(1).is_empty());
    assert!(grid_indices(0).is_empty());
    let big = grid_indices(256);
    assert_eq!(big.len(), 6 * 255 * 255);
    assert_eq!(big[big.len() - 1], 256 * 256 - 1);
}
