use facial::identity::{
    check_detector_outputs, choose_detector, cluster_embeddings, detector_grid, hex_of_bytes,
    model_sha256, nms, DetectorOrigin, LabelTally,
};
use facial::landmarks::{check_landmark_outputs, reverse_index, GRID, NUM_LMS, NUM_NB};

fn dot(a: &[f32], b: &[f32]) -> f32 {
    a.iter().zip(b).map(|(x, y)| x * y).sum()
}

#[test]
fn cluster_embeddings_groups_by_threshold() {
    let e: Vec<Vec<f32>> = vec![
        vec![1.0, 0.0, 0.0],
        vec![0.999, 0.0447, 0.0],
        vec![0.0, 1.0, 0.0],
        vec![0.0, 0.9988, 0.0499],
        vec![0.0, 0.0, 1.0],
    ];
    let clusters = cluster_embeddings(e.len(), |a: usize, b: usize| dot(&e[a], &e[b]) >= 0.95);
    assert_eq!(clusters, vec![0, 0, 1, 1, 2]);
    let clusters = cluster_embeddings(e.len(), |a: usize, b: usize| dot(&e[a], &e[b]) >= 0.9999);
    assert_eq!(clusters, vec![0, 1, 2, 3, 4]);
}

#[test]
fn overlapping_faces_yield_to_better_ones() {
    let near = |a: usize, b: usize| a.abs_diff(b) == 1;
    assert_eq!(nms(5, near), vec![0, 2, 4]);
    assert!(nms(0, near).is_empty());
}

#[test]
fn model_files_have_fingerprints() {
    assert_eq!(
        model_sha256(&b"abc".to_vec()),
        "ba7816bf8f01cfea414140de5dae2223b00361a396177a9cb410ff61f20015ad"
    );
    assert_eq!(hex_of_bytes(&vec![0x00, 0xaf, 0x10]), "00af10");
}

#[test]
fn detectors_are_chosen_in_order() {
    assert_eq!(choose_detector(Some(true), true), DetectorOrigin::Override);
    assert_eq!(choose_detector(Some(false), true), DetectorOrigin::BundledFallback);
    assert_eq!(choose_detector(None, true), DetectorOrigin::Bundled);
    assert_eq!(choose_detector(None, false), DetectorOrigin::Missing);
    assert_ne!(DetectorOrigin::Bundled.as_str(), DetectorOrigin::Missing.as_str());
    assert_ne!(
        DetectorOrigin::Bundled.align_method(),
        DetectorOrigin::Missing.align_method()
    );
}

#[test]
fn detector_outputs_are_counted() {
    assert!(check_detector_outputs(12).is_ok());
    assert_eq!(
        check_detector_outputs(3).unwrap_err(),
        "detector output layout mismatch: 3 outputs, expected >= 12 (YuNet 2023mar)"
    );
}

#[test]
fn grids_are_square_and_complete() {
    assert_eq!(detector_grid(6400, 6400, 25600, 64000), Some(80));
    assert_eq!(detector_grid(6401, 6401, 64000, 64010), None);
    assert_eq!(detector_grid(6400, 6399, 25600, 64000), None);
    assert_eq!(detector_grid(0, 0, 0, 0), None);
}

#[test]
fn the_most_frequent_label_dominates() {
    let mut tally = LabelTally::new();
    assert_eq!(tally.dominant(), None);
    for label in ["black", "pink", "pink"] {
        tally.record(label);
    }
    assert_eq!(tally.dominant(), Some(("pink".to_string(), 2)));
    assert_eq!(tally.total, 3);
}

#[test]
fn neighbours_are_looked_up_backwards() {
    let neighbors = vec![vec![1, 2], vec![0], vec![1]];
    assert_eq!(
        reverse_index(&neighbors),
        vec![vec![(1, 0)], vec![(0, 0), (2, 0)], vec![(0, 1)]]
    );
}

#[test]
fn landmark_models_have_five_outputs() {
    let one = vec![1, NUM_LMS, GRID, GRID];
    let many = vec![1, NUM_LMS * NUM_NB, GRID, GRID];
    let good = vec![one.clone(), one.clone(), one.clone(), many.clone(), many.clone()];
    assert!(check_landmark_outputs(&good).is_ok());
    assert!(check_landmark_outputs(&good[..4].to_vec()).is_err());
    let mut bad = good;
    bad[3] = one;
    let error = check_landmark_outputs(&bad).unwrap_err();
    assert!(error.starts_with("landmark output 3 has shape [1, 98, 8, 8], expected"), "{error}");
}
