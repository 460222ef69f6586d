use rand_chacha::rand_core::SeedableRng;
use sentence_gpt_rs_mlx::session::{
    normalize_training_documents, sorted_unique_characters, tokenizer_for_documents,
    training_chunk_should_stop, validation_after_step, validation_document_indices,
};

fn strings(items: &[&str]) -> Vec<String> {
    items.iter().map(|s| s.to_string()).collect()
}

#[test]
fn empty_documents_are_dropped_after_normalization() {
    let normalized = normalize_training_documents(&strings(&["Hello There!", "123", "  a  b "]));
    assert_eq!(normalized, strings(&["hello there", "a b"]));
}

#[test]
fn vocabulary_is_sorted_and_distinct() {
    let characters = sorted_unique_characters(&strings(&["banana", "cab", "a b"]));
    assert_eq!(characters, vec![' ', 'a', 'b', 'c', 'n']);
    assert_eq!(sorted_unique_characters(&[]), Vec::<char>::new());
}

#[test]
fn validation_batches_wrap_around_the_validation_set() {
    assert_eq!(validation_document_indices(0, 25, 2, 5), vec![0, 1]);
    assert_eq!(validation_document_indices(25, 25, 2, 5), vec![2, 3]);
    assert_eq!(validation_document_indices(50, 25, 2, 5), vec![4, 0]);
    assert_eq!(validation_document_indices(74, 25, 2, 5), vec![4, 0]);
    assert_eq!(validation_document_indices(10, 25, 8, 3), vec![0, 1, 2]);
    assert_eq!(validation_document_indices(10, 25, 8, 0), Vec::<usize>::new());
}

#[test]
fn validation_is_measured_when_its_step_is_reached() {
    let early = validation_after_step(24, 25, 25);
    assert!(!early.measure_validation);
    assert_eq!(early.next_validation_step, 25);
    let due = validation_after_step(25, 25, 25);
    assert!(due.measure_validation);
    assert_eq!(due.next_validation_step, 50);
    let late = validation_after_step(60, 50, 25);
    assert!(late.measure_validation);
    assert_eq!(late.next_validation_step, 75);
}

#[test]
fn training_chunks_stop_at_validation_completion_or_budget() {
    assert!(!training_chunk_should_stop(false, false, 10, 25, false));
    assert!(training_chunk_should_stop(true, false, 10, 25, false));
    assert!(training_chunk_should_stop(false, true, 10, 25, false));
    assert!(training_chunk_should_stop(false, false, 25, 25, false));
    assert!(training_chunk_should_stop(false, false, 10, 25, true));
}

#[test]
fn prepared_documents_split_and_share_one_vocabulary() {
    let mut rng = rand_chacha::ChaCha8Rng::seed_from_u64(1);
    let prepared = sentence_gpt_rs_mlx::session::prepare_training_documents(
        &strings(&["Hello World", "", "abc", "ZZZ top", "42"]),
        &mut rng,
        2,
    );
    assert_eq!(prepared.validation_documents.len(), 1);
    assert_eq!(prepared.documents.len(), 2);
    let mut all: Vec<String> = prepared
        .validation_documents
        .iter()
        .chain(prepared.documents.iter())
        .cloned()
        .collect();
    all.sort();
    assert_eq!(all, strings(&["abc", "hello world", "zzz top"]));
    assert_eq!(
        prepared.tokenizer.unique_characters,
        vec![' ', 'a', 'b', 'c', 'd', 'e', 'h', 'l', 'o', 'p', 'r', 't', 'w', 'z']
    );
    assert_eq!(prepared.tokenizer.sequence_boundary_token_id, 14);
    assert_eq!(prepared.tokenizer.token_id('z'), Some(13));
}

#[test]
fn split_sessions_share_one_vocabulary() {
    let tokenizer = tokenizer_for_documents(&strings(&["Alpha went home."]), &strings(&["Beta!"]));
    assert_eq!(
        tokenizer.unique_characters,
        vec![' ', '!', '.', 'A', 'B', 'a', 'e', 'h', 'l', 'm', 'n', 'o', 'p', 't', 'w']
    );
    assert_eq!(tokenizer.sequence_boundary_token_id, 15);
    assert_eq!(tokenizer.token_id('B'), Some(4));
}
