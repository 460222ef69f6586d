use sentence_gpt_rs_mlx::batching::{
    deterministic_index, splitmix64, token_window_from_tokens, training_batch_token_windows,
};
use sentence_gpt_rs_mlx::model::CharacterTokenizer;

#[test]
fn splitmix64_matches_the_reference_output() {
    assert_eq!(splitmix64(0), 0xe220_a839_7b1d_cdaf);
    assert_ne!(splitmix64(1), splitmix64(0));
}

#[test]
fn deterministic_index_is_reproducible_and_in_range() {
    assert_eq!(deterministic_index(5, 3, 7, 0), 0);
    assert_eq!(deterministic_index(5, 3, 7, 1), 0);
    assert_eq!(deterministic_index(0, 0, 0, 10), 5);
    assert_eq!(deterministic_index(0, 0, 0, 7), 2);
    for step in 0..50 {
        let index = deterministic_index(step, 2, 0x9e37, 13);
        assert!(index < 13);
        assert_eq!(index, deterministic_index(step, 2, 0x9e37, 13));
    }
}

#[test]
fn short_documents_fill_the_window_from_the_start() {
    let window = token_window_from_tokens(&vec![5, 6, 7], 3, 1, 4, 9);
    assert_eq!(window.input_tokens, vec![5, 6, 9, 9]);
    assert_eq!(window.target_tokens, vec![6, 7, 9, 9]);
    assert_eq!(window.loss_mask, vec![true, true, false, false]);
    assert_eq!(window.batch_offset, 1);
    let empty = token_window_from_tokens(&vec![], 0, 0, 2, 9);
    assert_eq!(empty.input_tokens, vec![9, 9]);
    assert_eq!(empty.loss_mask, vec![false, false]);
}

#[test]
fn window_targets_are_the_next_tokens() {
    let tokens: Vec<usize> = (0..10).collect();
    for step in 0..20 {
        let window = token_window_from_tokens(&tokens, step, 0, 3, 99);
        let start = deterministic_index(step, 0, 0xd1b5, 7);
        assert_eq!(window.input_tokens, vec![start, start + 1, start + 2]);
        for position in 0..3 {
            assert_eq!(window.target_tokens[position], window.input_tokens[position] + 1);
        }
        assert_eq!(window.loss_mask, vec![true, true, true]);
    }
}

#[test]
fn batch_windows_encode_the_drawn_documents() {
    let tokenizer = CharacterTokenizer::new(vec!['a', 'b'], 2);
    let documents = vec!["ab".to_string(), "ba".to_string()];
    let windows = training_batch_token_windows(&documents, &tokenizer, 4, 3, 5);
    assert_eq!(windows.len(), 3);
    for (offset, window) in windows.iter().enumerate() {
        let document = &documents[deterministic_index(4, offset, 0x9e37, 2)];
        let encoded = tokenizer.encode_document(document);
        assert_eq!(window.batch_offset, offset);
        assert_eq!(window.input_tokens[..3], encoded[..3]);
        assert_eq!(window.target_tokens[..3], encoded[1..]);
        assert_eq!(window.input_tokens[3..], [2, 2]);
        assert_eq!(window.loss_mask, vec![true, true, true, false, false]);
    }
}

#[test]
fn splitmix64_gives_distinct_outputs_for_distinct_inputs() {
    let mut outputs: Vec<u64> = (0..2000u64).map(splitmix64).collect();
    outputs.extend([u64::MAX, u64::MAX - 1, 1 << 63].iter().map(|&v| splitmix64(v)));
    let count = outputs.len();
    outputs.sort();
    outputs.dedup();
    assert_eq!(outputs.len(), count);
}
