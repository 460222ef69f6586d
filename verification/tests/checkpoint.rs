use sentence_gpt_rs_mlx::checkpoint::{
    checkpoint_payload, filled_checkpoint_tensor, flat_values_to_checkpoint_tensors,
    flatten_checkpoint_tensors, frame_checkpoint_payload, restore_checkpoint_values, same_shape,
    shape_value_count,
    upgrade_legacy_checkpoint_tensors_for_norm_gains, CheckpointTensor,
};

fn tensor(shape: Vec<usize>, values: Vec<f64>) -> CheckpointTensor<f64> {
    CheckpointTensor::new(shape, values).unwrap()
}

#[test]
fn framing_then_reading_gives_the_payload_back() {
    let payload = vec![1u8, 2, 3, 250];
    let framed = frame_checkpoint_payload(&payload);
    assert_eq!(&framed[..8], b"MGPTCKP1");
    assert_eq!(framed.len(), 12);
    assert_eq!(checkpoint_payload(&framed).unwrap(), payload);
    assert_eq!(checkpoint_payload(&frame_checkpoint_payload(&[])).unwrap(), Vec::<u8>::new());
}

#[test]
fn bytes_without_the_magic_are_refused() {
    assert_eq!(
        checkpoint_payload(b"MGPTCKP").unwrap_err(),
        "not a sentence-gpt-rs-mlx checkpoint file"
    );
    assert_eq!(
        checkpoint_payload(b"MGPTCKP2payload").unwrap_err(),
        "not a sentence-gpt-rs-mlx checkpoint file"
    );
}

#[test]
fn tensor_value_count_must_match_its_shape() {
    assert_eq!(shape_value_count(&vec![2, 3]), 6);
    assert_eq!(shape_value_count(&vec![]), 1);
    let ok = tensor(vec![2, 2], vec![1.0, 2.0, 3.0, 4.0]);
    assert_eq!(ok.shape, vec![2, 2]);
    assert_eq!(ok.values, vec![1.0, 2.0, 3.0, 4.0]);
    assert_eq!(
        CheckpointTensor::new(vec![2, 3], vec![1.0, 2.0]).err().unwrap(),
        "tensor shape [2, 3] expects 6 values, got 2"
    );
}

#[test]
fn filled_tensor_copies_the_shape() {
    let expected = tensor(vec![3], vec![0.5, 0.25, 0.125]);
    let filled = filled_checkpoint_tensor(&expected, 1.0);
    assert_eq!(filled.shape, vec![3]);
    assert_eq!(filled.values, vec![1.0, 1.0, 1.0]);
    assert!(same_shape(&vec![1, 2], &vec![1, 2]));
    assert!(!same_shape(&vec![1, 2], &vec![2, 1]));
    assert!(!same_shape(&vec![1, 2], &vec![1, 2, 1]));
}

#[test]
fn flattening_checks_count_shape_and_values() {
    let expected = vec![tensor(vec![2], vec![0.0, 0.0]), tensor(vec![1, 1], vec![0.0])];
    let tensors = vec![tensor(vec![2], vec![1.0, 2.0]), tensor(vec![1, 1], vec![3.0])];
    assert_eq!(
        flatten_checkpoint_tensors(&tensors, &expected).unwrap(),
        vec![1.0, 2.0, 3.0]
    );
    assert_eq!(
        flatten_checkpoint_tensors(&tensors[..1], &expected).unwrap_err(),
        "checkpoint has 1 parameter tensors, expected 2"
    );
    let wrong_shape = vec![tensor(vec![2], vec![1.0, 2.0]), tensor(vec![1], vec![3.0])];
    assert_eq!(
        flatten_checkpoint_tensors(&wrong_shape, &expected).unwrap_err(),
        "checkpoint tensor 1 has shape [1], expected [1, 1]"
    );
    let wrong_values = vec![
        CheckpointTensor {
            shape: vec![2],
            values: vec![1.0],
        },
        tensor(vec![1, 1], vec![3.0]),
    ];
    assert_eq!(
        flatten_checkpoint_tensors(&wrong_values, &expected).unwrap_err(),
        "checkpoint tensor 0 has 1 values, expected 2"
    );
}

#[test]
fn flat_values_split_back_into_tensors() {
    let expected = vec![tensor(vec![2], vec![0.0, 0.0]), tensor(vec![1, 1], vec![0.0])];
    let tensors = flat_values_to_checkpoint_tensors(&[4.0, 5.0, 6.0], &expected).unwrap();
    assert_eq!(tensors.len(), 2);
    assert_eq!(tensors[0].shape, vec![2]);
    assert_eq!(tensors[0].values, vec![4.0, 5.0]);
    assert_eq!(tensors[1].shape, vec![1, 1]);
    assert_eq!(tensors[1].values, vec![6.0]);
    assert_eq!(
        flat_values_to_checkpoint_tensors(&[4.0, 5.0], &expected).err().unwrap(),
        "optimizer state has 2 values, expected 3"
    );
    let flattened = flatten_checkpoint_tensors(&tensors, &expected).unwrap();
    assert_eq!(flattened, vec![4.0, 5.0, 6.0]);
}

#[test]
fn legacy_checkpoints_gain_norm_tensors() {
    let layer_count = 1;
    // Expected layout: 5 tensors before the layers and 16 per layer.
    let expected: Vec<CheckpointTensor<f64>> = (0..21)
        .map(|i| tensor(vec![1], vec![i as f64]))
        .collect();
    // Legacy layout: 4 tensors before the layers and 14 per layer.
    let legacy: Vec<CheckpointTensor<f64>> = (0..18)
        .map(|i| tensor(vec![1], vec![100.0 + i as f64]))
        .collect();
    let upgraded =
        upgrade_legacy_checkpoint_tensors_for_norm_gains(&legacy, &expected, layer_count, 1.0)
            .unwrap();
    assert_eq!(upgraded.len(), 21);
    let values: Vec<f64> = upgraded.iter().map(|t| t.values[0]).collect();
    assert_eq!(
        values,
        vec![
            100.0, 101.0, 102.0, 103.0, 1.0, 1.0, 104.0, 105.0, 106.0, 107.0, 108.0, 109.0, 110.0,
            111.0, 1.0, 112.0, 113.0, 114.0, 115.0, 116.0, 117.0
        ]
    );
    let same = upgrade_legacy_checkpoint_tensors_for_norm_gains(&expected, &expected, 1, 1.0)
        .unwrap();
    assert_eq!(same.len(), 21);
    assert_eq!(same[7].values, vec![7.0]);
    assert_eq!(
        upgrade_legacy_checkpoint_tensors_for_norm_gains(&legacy[..17], &expected, 1, 1.0)
            .err()
            .unwrap(),
        "checkpoint has 17 parameter tensors, expected 21"
    );
}

#[test]
fn checkpoint_state_is_restored_or_the_first_error_reported() {
    // Current layout for no layers: five tensors.
    let expected: Vec<CheckpointTensor<f64>> =
        (0..5).map(|_| tensor(vec![2], vec![0.0, 0.0])).collect();
    let parameters: Vec<CheckpointTensor<f64>> =
        (0..5).map(|i| tensor(vec![2], vec![i as f64, 0.5])).collect();
    let legacy_moments: Vec<CheckpointTensor<f64>> =
        (0..4).map(|i| tensor(vec![2], vec![10.0 + i as f64, 0.0])).collect();
    let restored =
        restore_checkpoint_values(&parameters, &legacy_moments, &legacy_moments, &expected, 0, 1.0, 0.0)
            .ok()
            .unwrap();
    assert_eq!(restored.parameters, vec![0.0, 0.5, 1.0, 0.5, 2.0, 0.5, 3.0, 0.5, 4.0, 0.5]);
    assert_eq!(
        restored.first_moment_estimates,
        vec![10.0, 0.0, 11.0, 0.0, 12.0, 0.0, 13.0, 0.0, 0.0, 0.0]
    );
    assert_eq!(restored.second_moment_estimates, restored.first_moment_estimates);

    let bad_shape: Vec<CheckpointTensor<f64>> = (0..5)
        .map(|i| {
            if i == 3 {
                tensor(vec![1, 2], vec![0.0, 0.0])
            } else {
                tensor(vec![2], vec![0.0, 0.0])
            }
        })
        .collect();
    // The tensor counts of all three lists are checked before any shape.
    assert_eq!(
        restore_checkpoint_values(&bad_shape, &parameters[..3], &parameters, &expected, 0, 1.0, 0.0)
            .err()
            .unwrap(),
        "checkpoint has 3 parameter tensors, expected 5"
    );
    assert_eq!(
        restore_checkpoint_values(&bad_shape, &parameters, &parameters, &expected, 0, 1.0, 0.0)
            .err()
            .unwrap(),
        "checkpoint tensor 3 has shape [1, 2], expected [2]"
    );
}

#[test]
fn saved_training_state_reads_back_unchanged() {
    // A model without layers saves five tensors.
    let shapes = vec![vec![2, 2], vec![3], vec![1], vec![2], vec![1]];
    let expected: Vec<CheckpointTensor<f64>> = shapes
        .iter()
        .map(|shape| tensor(shape.clone(), vec![0.0; shape.iter().product()]))
        .collect();
    let parameters: Vec<CheckpointTensor<f64>> = shapes
        .iter()
        .enumerate()
        .map(|(i, shape)| {
            let count: usize = shape.iter().product();
            tensor(shape.clone(), (0..count).map(|k| (10 * i + k) as f64).collect())
        })
        .collect();
    let first: Vec<f64> = (0..11).map(|i| i as f64 * 0.5).collect();
    let second: Vec<f64> = (0..11).map(|i| i as f64 * 0.25).collect();
    let first_tensors = flat_values_to_checkpoint_tensors(&first, &expected).ok().unwrap();
    let second_tensors = flat_values_to_checkpoint_tensors(&second, &expected).ok().unwrap();
    let restored = restore_checkpoint_values(
        &parameters,
        &first_tensors,
        &second_tensors,
        &expected,
        0,
        1.0,
        0.0,
    )
    .ok()
    .unwrap();
    assert_eq!(
        restored.parameters,
        vec![0.0, 1.0, 2.0, 3.0, 10.0, 11.0, 12.0, 20.0, 30.0, 31.0, 40.0]
    );
    assert_eq!(restored.first_moment_estimates, first);
    assert_eq!(restored.second_moment_estimates, second);
}
