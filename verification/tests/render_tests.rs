use stitch::render::{
    cylinder_mesh_indices, depth_index, input_ranges, mask_words, plane_mesh_indices,
    upload_offsets, MASK_ON, SLICES,
};

#[test]
fn input_ranges_lie_back_to_back() {
    let r = input_ranges(&[(2, 3), (4, 1), (0, 9)]);
    assert_eq!(r, vec![(0, 6), (6, 10), (10, 10)]);
    for w in r.windows(2) {
        assert_eq!(w[0].1, w[1].0);
    }
    assert!(input_ranges(&[]).is_empty());
}

#[test]
fn mask_words_threshold_at_half() {
    let words = mask_words(&[(2, 2)], &[Some(vec![0, 127, 128, 255])]);
    assert_eq!(words, vec![0, 0, MASK_ON, MASK_ON]);
}

#[test]
fn mask_words_without_mask_use_everything() {
    let words = mask_words(&[(1, 2), (2, 1)], &[None, Some(vec![200])]);
    assert_eq!(words, vec![MASK_ON, MASK_ON, MASK_ON, 0]);
}

#[test]
fn mask_words_for_missing_cameras_are_zero() {
    let words = mask_words(&[(1, 1), (1, 2)], &[None]);
    assert_eq!(words, vec![MASK_ON, 0, 0]);
}

#[test]
fn upload_offsets_accumulate() {
    assert_eq!(upload_offsets(&[10, 20, 5]), vec![(0, 10), (10, 20), (30, 5)]);
}

#[test]
fn cylinder_mesh_indices_are_in_range() {
    let idxs = cylinder_mesh_indices();
    assert_eq!(idxs.len(), 9 * SLICES as usize);
    assert_eq!(&idxs[..9], &[0, 1, 3, 3, 1, 2, 2, 4, 3]);
    assert_eq!(&idxs[idxs.len() - 9..], &[0, 39, 1, 1, 39, 40, 40, 2, 1]);
    assert!(idxs.iter().all(|i| *i < 1 + 2 * SLICES));
}

#[test]
fn plane_mesh_indices_two_triangles() {
    assert_eq!(plane_mesh_indices(), vec![0, 1, 2, 2, 3, 0]);
}

#[test]
fn depth_index_clamps_to_frame() {
    assert_eq!(depth_index(2, 1, 4, 3), 6);
    assert_eq!(depth_index(9, 9, 4, 3), 11);
    assert_eq!(depth_index(0, 0, 1, 1), 0);
}
