use rand_chacha::rand_core::SeedableRng;
use rand_chacha::ChaCha8Rng;
use sentence_gpt_rs_mlx::config::TrainingRunConfig;
use rand::Rng;
use sentence_gpt_rs_mlx::random::{fisher_yates_order, shuffled_by, shuffled_indices};
use sentence_gpt_rs_mlx::stories::{
    flatten_story_sentences, split_sentences_keep_punctuation, split_training_validation_stories,
    stories_to_sentence_groups, Story, TrainingStoryDocuments,
};

fn small_run_config() -> TrainingRunConfig {
    TrainingRunConfig {
        validation_step_interval: 25,
        training_document_batch_size: 2,
        max_document_count: 10,
        validation_set_divisor: 2,
        validation_evaluation_document_count: 2,
        context_window_size: 64,
        layer_count: 1,
        attention_heads: 2,
        embedding_size: 8,
    }
}

fn story(text: &str, source: &str) -> Story {
    Story {
        story: text.into(),
        source: source.into(),
    }
}

fn all_sentences(groups: &[TrainingStoryDocuments]) -> Vec<&String> {
    groups.iter().flat_map(|group| group.sentences.iter()).collect()
}

#[test]
fn sentence_splitter_keeps_boundary_punctuation() {
    assert_eq!(
        split_sentences_keep_punctuation("Are you there? Yes! I am."),
        vec!["Are you there?", " Yes!", " I am."]
    );
}

#[test]
fn duplicate_sentences_are_filtered_globally() {
    let stories = stories_to_sentence_groups(
        vec![
            story("Shared sentence here. Unique alpha sentence.", "GPT-4"),
            story("Shared sentence here. Unique beta sentence.", "GPT-4"),
        ],
        small_run_config(),
    );
    let sentences = all_sentences(&stories);

    assert_eq!(sentences.len(), 3);
    assert_eq!(
        sentences
            .iter()
            .filter(|sentence| sentence.as_str() == "Shared sentence here.")
            .count(),
        1
    );
}

#[test]
fn stories_stay_grouped_before_train_validation_split() {

    let training_run_config = small_run_config();
    let stories = stories_to_sentence_groups(
        vec![
            story("Alpha went home. Alpha ate cake.", "GPT-4"),
            story("Ignored went home. Ignored ate cake.", "GPT-3.5"),
            story("Beta saw stars. Beta went home.", "GPT-4"),
        ],
        training_run_config,
    );
    let mut rng = ChaCha8Rng::seed_from_u64(1);
    let split = split_training_validation_stories(
        &stories,
        &mut rng,
        training_run_config.validation_set_divisor,
    );

    assert_eq!(split.documents.len(), 2);
    assert_eq!(split.validation_documents.len(), 2);
    assert!(
        split.documents.iter().all(|document| document.starts_with("Alpha"))
            || split.documents.iter().all(|document| document.starts_with("Beta"))
    );
    assert!(
        split
            .validation_documents
            .iter()
            .all(|document| document.starts_with("Alpha"))
            || split
                .validation_documents
                .iter()
                .all(|document| document.starts_with("Beta"))
    );
    assert_ne!(
        split.documents[0].chars().next(),
        split.validation_documents[0].chars().next()
    );
}

#[test]
fn splitter_keeps_trailing_text_without_punctuation() {
    assert_eq!(
        split_sentences_keep_punctuation("One. Two"),
        vec!["One.", " Two"]
    );
    assert_eq!(split_sentences_keep_punctuation(""), Vec::<String>::new());
    assert_eq!(split_sentences_keep_punctuation("?!"), vec!["?", "!"]);
}

#[test]
fn split_pieces_concatenate_to_the_story() {
    let story_text = "Wait... what? Héllo wörld! end";
    let pieces = split_sentences_keep_punctuation(story_text);
    assert_eq!(pieces.concat(), story_text);
    for piece in &pieces[..pieces.len() - 1] {
        let last = piece.chars().last().unwrap();
        assert!(matches!(last, '.' | '?' | '!'));
        assert_eq!(
            piece.chars().filter(|c| matches!(c, '.' | '?' | '!')).count(),
            1
        );
    }
}

#[test]
fn only_gpt4_stories_with_real_sentences_are_kept() {
    let groups = stories_to_sentence_groups(
        vec![
            story("Short. This one is long enough.", "GPT-4"),
            story("Other source sentence here.", "GPT-3.5"),
            story("Nowordbreaksinthisone. Tabs\tand new\nlines are kept.", "GPT-4"),
        ],
        small_run_config(),
    );
    let sentences: Vec<String> = all_sentences(&groups).into_iter().cloned().collect();
    assert_eq!(
        sentences,
        vec![
            "This one is long enough.".to_string(),
            "Tabs\tand new lines are kept.".to_string(),
        ]
    );
    assert_eq!(groups.len(), 2);
}

#[test]
fn sentence_groups_stop_at_the_document_limit() {
    let mut config = small_run_config();
    config.max_document_count = 3;
    let groups = stories_to_sentence_groups(
        vec![
            story("First sentence one. First sentence two.", "GPT-4"),
            story("Second sentence one. Second sentence two.", "GPT-4"),
            story("Third sentence one. Third sentence two.", "GPT-4"),
        ],
        config,
    );
    let sentences = all_sentences(&groups);
    assert_eq!(sentences.len(), 3);
    assert_eq!(groups.len(), 2);
    assert_eq!(groups[1].sentences, vec!["Second sentence one.".to_string()]);
}

#[test]
fn flattening_keeps_story_order() {
    let groups = vec![
        TrainingStoryDocuments {
            sentences: vec!["a".to_string(), "b".to_string()],
        },
        TrainingStoryDocuments {
            sentences: vec!["c".to_string()],
        },
    ];
    assert_eq!(
        flatten_story_sentences(&groups),
        vec!["a".to_string(), "b".to_string(), "c".to_string()]
    );
}

#[test]
fn split_keeps_every_sentence_once() {

    let groups: Vec<TrainingStoryDocuments> = (0..7)
        .map(|i| TrainingStoryDocuments {
            sentences: vec![format!("story {i} first"), format!("story {i} second")],
        })
        .collect();
    let mut rng = ChaCha8Rng::seed_from_u64(42);
    let split = split_training_validation_stories(&groups, &mut rng, 3);
    assert_eq!(split.validation_documents.len(), 4);
    assert_eq!(split.documents.len(), 10);
    let mut all: Vec<String> = split
        .documents
        .iter()
        .chain(split.validation_documents.iter())
        .cloned()
        .collect();
    all.sort();
    let mut expected: Vec<String> = groups.iter().flat_map(|g| g.sentences.clone()).collect();
    expected.sort();
    assert_eq!(all, expected);
}

#[test]
fn shuffling_permutes_the_items() {
    let items: Vec<usize> = (0..20).collect();
    let mut rng = ChaCha8Rng::seed_from_u64(7);
    let shuffled = shuffled_by(&items, &mut rng);
    assert_ne!(shuffled, items);
    let mut sorted = shuffled.clone();
    sorted.sort();
    assert_eq!(sorted, items);
}

#[test]
fn fisher_yates_applies_the_draws_from_the_last_position_down() {
    // Start [0, 1, 2, 3]; swap 3 with 1, then 2 with 0, then 1 with 0.
    assert_eq!(fisher_yates_order(4, &vec![1, 0, 0]), vec![3, 2, 0, 1]);
    assert_eq!(fisher_yates_order(3, &vec![2, 1]), vec![0, 1, 2]);
    assert_eq!(fisher_yates_order(1, &vec![]), vec![0]);
    assert_eq!(fisher_yates_order(0, &vec![]), Vec::<usize>::new());
}

#[test]
fn shuffling_swaps_in_place_with_inclusive_draws() {
    for seed in 0..10u64 {
        let items: Vec<usize> = (0..17).collect();
        let mut expected = items.clone();
        let mut reference_rng = ChaCha8Rng::seed_from_u64(seed);
        for current in (1..expected.len()).rev() {
            let swap_index = reference_rng.gen_range(0..=current);
            expected.swap(current, swap_index);
        }
        let mut rng = ChaCha8Rng::seed_from_u64(seed);
        assert_eq!(shuffled_by(&items, &mut rng), expected);
        let mut rng = ChaCha8Rng::seed_from_u64(seed);
        assert_eq!(shuffled_indices(17, &mut rng), expected);
    }
}
