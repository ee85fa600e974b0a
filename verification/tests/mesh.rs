use aphelion::uv_sphere_indices;

#[test]
fn the_sphere_has_the_expected_topology() {
    let indices = uv_sphere_indices(16, 32);
    let vertex_count = 17 * 33;
    assert_eq!(indices.len() / 3, 16 * 32 * 2);
    assert!(indices.iter().all(|&i| (i as usize) < vertex_count));
}

#[test]
fn each_cell_becomes_two_counter_clockwise_triangles() {
    let indices = uv_sphere_indices(3, 4);
    // Row length is segments + 1 = 5.
    assert_eq!(&indices[..6], &[0, 5, 1, 1, 5, 6]);
    // Second cell of the second ring: bottom-left = 1·5 + 1 = 6.
    assert_eq!(&indices[6 * 5..6 * 6], &[6, 11, 7, 7, 11, 12]);
    // The last cell touches the last vertex of the grid.
    assert_eq!(*indices.last().unwrap(), 4 * 5 - 1);
    assert_eq!(indices.len(), 6 * 3 * 4);
}
