use sentence_gpt_rs_mlx::checkpoint::{restore_checkpoint_values, CheckpointTensor};
use sentence_gpt_rs_mlx::model::parameter_tensor_shapes;
use sentence_gpt_rs_mlx::parameters::{
    AttentionParameters, FeedForwardParameters, TransformerLayerParameters,
    TransformerModelParameters,
};

fn matrix(rows: usize, columns: usize, next: &mut u32) -> Vec<Vec<u32>> {
    (0..rows)
        .map(|_| {
            (0..columns)
                .map(|_| {
                    *next += 1;
                    *next
                })
                .collect()
        })
        .collect()
}

fn vector(size: usize, next: &mut u32) -> Vec<u32> {
    (0..size)
        .map(|_| {
            *next += 1;
            *next
        })
        .collect()
}

/// A model whose values count up from 1 in the order they are built.
fn counting_model(v: usize, c: usize, e: usize, layers: usize) -> TransformerModelParameters<u32> {
    let f = 3 * e;
    let mut next = 0;
    let token_embedding = matrix(v, e, &mut next);
    let position_embedding = matrix(c, e, &mut next);
    let language_model_head = matrix(v, e, &mut next);
    let language_model_head_biases = vector(v, &mut next);
    let final_norm_gain = vector(e, &mut next);
    let layers = (0..layers)
        .map(|_| TransformerLayerParameters {
            attention_norm_gain: vector(e, &mut next),
            attention: AttentionParameters {
                query_weights: matrix(e, e, &mut next),
                query_biases: vector(e, &mut next),
                key_weights: matrix(e, e, &mut next),
                key_biases: vector(e, &mut next),
                value_weights: matrix(e, e, &mut next),
                value_biases: vector(e, &mut next),
                output_projection_weights: matrix(e, e, &mut next),
                output_projection_biases: vector(e, &mut next),
            },
            feed_forward_norm_gain: vector(e, &mut next),
            feed_forward: FeedForwardParameters {
                expansion_weights: matrix(f, e, &mut next),
                expansion_biases: vector(f, &mut next),
                gate_weights: matrix(f, e, &mut next),
                gate_biases: vector(f, &mut next),
                projection_weights: matrix(e, f, &mut next),
                projection_biases: vector(e, &mut next),
            },
        })
        .collect();
    TransformerModelParameters {
        token_embedding,
        position_embedding,
        language_model_head,
        language_model_head_biases,
        final_norm_gain,
        layers,
    }
}

#[test]
fn flat_order_follows_the_tensors() {
    let model = counting_model(5, 3, 2, 2);
    let values = model.clone().into_values();
    let count: usize = parameter_tensor_shapes(5, 3, 2, 2)
        .iter()
        .map(|shape| shape.iter().product::<usize>())
        .sum();
    assert_eq!(values.len(), count);
    assert_eq!(values, (1..=count as u32).collect::<Vec<u32>>());
}

#[test]
fn rebuilding_from_flat_values_keeps_shape_and_order() {
    let model = counting_model(4, 2, 2, 1);
    let values = model.clone().into_values();
    let doubled: Vec<u64> = values.iter().map(|&v| 2 * v as u64).collect();
    let rebuilt = model.with_values(doubled.clone());
    assert_eq!(rebuilt.token_embedding[1], vec![6, 8]);
    assert_eq!(rebuilt.layers[0].feed_forward.projection_weights.len(), 2);
    assert_eq!(rebuilt.layers[0].feed_forward.projection_weights[0].len(), 6);
    assert_eq!(rebuilt.clone().into_values(), doubled);
    let back = rebuilt.with_values(values.clone());
    assert_eq!(back.into_values(), values);
}

#[test]
fn values_copies_in_flat_order() {
    let model = counting_model(3, 2, 1, 2);
    let values = model.values();
    assert_eq!(values, model.clone().into_values());
    assert_eq!(values.len(), model.parameter_count());
    assert_eq!(&values[..4], &[1, 2, 3, 4]);
    assert_eq!(*values.last().unwrap() as usize, values.len());
}

#[test]
fn parameter_count_matches_layout() {
    let model = counting_model(6, 4, 3, 2);
    let count: usize = parameter_tensor_shapes(6, 4, 3, 2)
        .iter()
        .map(|shape| shape.iter().product::<usize>())
        .sum();
    assert_eq!(model.parameter_count(), count);
    let empty = counting_model(0, 0, 0, 0);
    assert_eq!(empty.parameter_count(), 0);
    assert!(empty.values().is_empty());
}

#[test]
fn checkpoint_tensors_follow_layout_and_values() {
    let model = counting_model(5, 3, 2, 2);
    let tensors = model.checkpoint_tensors();
    let shapes = parameter_tensor_shapes(5, 3, 2, 2);
    assert_eq!(tensors.len(), shapes.len());
    for (tensor, shape) in tensors.iter().zip(shapes.iter()) {
        assert_eq!(&tensor.shape, shape);
    }
    assert_eq!(tensors[0].values, vec![1, 2, 3, 4, 5, 6, 7, 8, 9, 10]);
    assert_eq!(tensors[3].shape, vec![5]);
    let flat: Vec<u32> = tensors.iter().flat_map(|t| t.values.iter().copied()).collect();
    assert_eq!(flat, model.values());
}

#[test]
fn saved_model_restores_into_template() {
    let saved = counting_model(4, 3, 2, 1);
    let template = saved.with_values(vec![0u32; saved.parameter_count()]);
    let expected = template.checkpoint_tensors();
    let moments: Vec<CheckpointTensor<u32>> = expected
        .iter()
        .map(|t| CheckpointTensor { shape: t.shape.clone(), values: vec![7; t.values.len()] })
        .collect();
    let restored = restore_checkpoint_values(
        &saved.checkpoint_tensors(),
        &moments,
        &moments,
        &expected,
        1,
        1,
        0,
    )
    .unwrap();
    assert_eq!(restored.parameters, saved.values());
    let rebuilt = template.with_values(restored.parameters);
    assert_eq!(rebuilt.values(), saved.values());
    assert_eq!(rebuilt.layers[0].attention.key_weights, saved.layers[0].attention.key_weights);
}
