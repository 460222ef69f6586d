use sentence_gpt_rs_mlx::model::{
    checked_model_parameter_count, model_parameter_count, parameter_tensor_shapes, CharacterTokenizer, TransformerConfig,
};

#[test]
fn transformer_config_splits_the_embedding_over_heads() {
    let config = TransformerConfig::new(2, 16, 32, 4).ok().unwrap();
    assert_eq!(config.layer_count, 2);
    assert_eq!(config.embedding_size, 16);
    assert_eq!(config.context_window_size, 32);
    assert_eq!(config.attention_head_count, 4);
    assert_eq!(config.attention_head_size, 4);
}

#[test]
fn transformer_config_reports_the_first_bad_size() {
    assert_eq!(
        TransformerConfig::new(0, 0, 0, 0).err().unwrap(),
        "layer_count must be positive"
    );
    assert_eq!(
        TransformerConfig::new(1, 0, 8, 2).err().unwrap(),
        "embedding_size must be positive"
    );
    assert_eq!(
        TransformerConfig::new(1, 8, 0, 2).err().unwrap(),
        "context_window_size must be positive"
    );
    assert_eq!(
        TransformerConfig::new(1, 8, 8, 0).err().unwrap(),
        "attention_head_count must be positive"
    );
    assert_eq!(
        TransformerConfig::new(1, 10, 8, 4).err().unwrap(),
        "embedding_size must be divisible by attention_head_count"
    );
}

#[test]
fn parameter_shapes_follow_the_checkpoint_layout() {
    let shapes = parameter_tensor_shapes(27, 16, 8, 2);
    assert_eq!(shapes.len(), 5 + 16 * 2);
    assert_eq!(shapes[0], vec![27, 8]);
    assert_eq!(shapes[1], vec![16, 8]);
    assert_eq!(shapes[2], vec![27, 8]);
    assert_eq!(shapes[3], vec![27]);
    assert_eq!(shapes[4], vec![8]);
    assert_eq!(shapes[5], vec![8]);
    assert_eq!(shapes[6], vec![8, 8]);
    assert_eq!(shapes[15], vec![24, 8]);
    assert_eq!(shapes[19], vec![8, 24]);
    assert_eq!(shapes[20], vec![8]);
    assert_eq!(parameter_tensor_shapes(5, 4, 2, 0).len(), 5);
}

#[test]
fn tokenizer_ids_follow_the_character_list() {
    let tokenizer = CharacterTokenizer::new(vec![' ', 'a', 'b', 'c'], 4);
    assert_eq!(tokenizer.vocabulary_size(), 5);
    assert_eq!(tokenizer.token_id('a'), Some(1));
    assert_eq!(tokenizer.token_id('z'), None);
    assert_eq!(tokenizer.encode_document("cab a"), vec![4, 3, 1, 2, 0, 1, 4]);
    assert_eq!(tokenizer.encode_document("zz"), vec![4, 4]);
}

#[test]
fn decoding_encoded_tokens_gives_the_known_characters_back() {
    let characters = vec![' ', 'e', 'h', 'l', 'o'];
    let tokenizer = CharacterTokenizer::new(characters.clone(), characters.len());
    let document = "hello, world";
    let encoded = tokenizer.encode_document(document);
    let decoded: String = encoded[1..encoded.len() - 1]
        .iter()
        .map(|&id| characters[id])
        .collect();
    let known: String = document.chars().filter(|c| characters.contains(c)).collect();
    assert_eq!(decoded, known);
    assert_eq!(decoded, "hello ol");
}

#[test]
fn parameter_count_is_the_number_of_tensor_values() {
    // 2 v e + c e + v + e with v = 27, c = 16, e = 8, then 13 e^2 + 13 e per layer.
    assert_eq!(model_parameter_count(27, 16, 8, 0), 2 * 27 * 8 + 16 * 8 + 27 + 8);
    assert_eq!(
        model_parameter_count(27, 16, 8, 2),
        2 * 27 * 8 + 16 * 8 + 27 + 8 + 2 * (13 * 64 + 13 * 8)
    );
    let shapes = parameter_tensor_shapes(27, 16, 8, 2);
    let total: usize = shapes.iter().map(|shape| shape.iter().product::<usize>()).sum();
    assert_eq!(model_parameter_count(27, 16, 8, 2), total);
}

#[test]
fn checked_parameter_count_reports_overflow() {
    assert_eq!(
        checked_model_parameter_count(27, 16, 8, 2),
        Some(model_parameter_count(27, 16, 8, 2))
    );
    assert_eq!(checked_model_parameter_count(5, 4, 2, 0), Some(2 * 5 * 2 + 4 * 2 + 5 + 2));
    assert_eq!(checked_model_parameter_count(usize::MAX, 1, 2, 0), None);
    assert_eq!(checked_model_parameter_count(1, 1, 1 << 32, 1), None);
    assert_eq!(checked_model_parameter_count(1, 1, 1, usize::MAX), None);
}
