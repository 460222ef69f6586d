use rand_chacha::rand_core::SeedableRng;
use rand_chacha::ChaCha8Rng;
use sentence_gpt_rs_mlx::browser::{
    document_match_score, document_page_count, next_document_page, ordered_character_score,
    previous_document_page, random_document_page, rank_search_matches, search_documents,
    visible_page_documents, DocumentBrowserDataset,
};

fn strings(items: &[&str]) -> Vec<String> {
    items.iter().map(|s| s.to_string()).collect()
}

#[test]
fn datasets_toggle_and_carry_labels() {
    assert_eq!(DocumentBrowserDataset::Training.label(), "Training");
    assert_eq!(DocumentBrowserDataset::Validation.label(), "Validation");
    assert_eq!(
        DocumentBrowserDataset::Training.toggled(),
        DocumentBrowserDataset::Validation
    );
    assert_eq!(
        DocumentBrowserDataset::Validation.toggled(),
        DocumentBrowserDataset::Training
    );
}

#[test]
fn pages_hold_ten_documents() {
    assert_eq!(document_page_count(0), 0);
    assert_eq!(document_page_count(10), 1);
    assert_eq!(document_page_count(11), 2);
    let documents: Vec<String> = (0..23).map(|i| format!("document {i}")).collect();
    let second = visible_page_documents(&documents, 1);
    assert_eq!(second.len(), 10);
    assert_eq!(second[0], (10, "document 10".to_string()));
    let past_the_end = visible_page_documents(&documents, 7);
    assert_eq!(
        past_the_end,
        vec![
            (20, "document 20".to_string()),
            (21, "document 21".to_string()),
            (22, "document 22".to_string())
        ]
    );
    assert!(visible_page_documents(&[], 3).is_empty());
}

#[test]
fn page_navigation_stays_in_range() {
    assert_eq!(next_document_page(0, 3), 1);
    assert_eq!(next_document_page(2, 3), 2);
    assert_eq!(next_document_page(9, 3), 2);
    assert_eq!(next_document_page(5, 0), 5);
    assert_eq!(previous_document_page(0), 0);
    assert_eq!(previous_document_page(3), 2);
    let mut rng = ChaCha8Rng::seed_from_u64(2);
    assert_eq!(random_document_page(&mut rng, 7, 0), 7);
    for _ in 0..20 {
        assert!(random_document_page(&mut rng, 0, 4) < 4);
    }
}

#[test]
fn ordered_score_stops_at_the_first_missing_character() {
    assert_eq!(ordered_character_score("hello world", "hlo"), 3);
    assert_eq!(ordered_character_score("abc", "axc"), 1);
    assert_eq!(ordered_character_score("abc", "cba"), 1);
    assert_eq!(ordered_character_score("", "abc"), 0);
    assert_eq!(ordered_character_score("abc", ""), 0);
}

#[test]
fn match_scores_weigh_whole_query_terms_and_occurrences() {
    assert_eq!(document_match_score("hello world", "hlo", &["hlo"]), 6);
    assert_eq!(document_match_score("aaaa", "aa", &["aa"]), 1174);
    assert_eq!(document_match_score("é", "é", &[]), 1008);
    assert_eq!(document_match_score("ab", "zz", &[""]), 175);
    assert_eq!(document_match_score("the cat sat", "cat", &["cat"]), 1161);
}

#[test]
fn ranking_puts_higher_scores_first_and_keeps_ties_in_order() {
    assert_eq!(rank_search_matches(&vec![5, 9, 5, 1, 9]), vec![1, 4, 0, 2, 3]);
    assert_eq!(rank_search_matches(&vec![]), Vec::<usize>::new());
    let scores: Vec<usize> = (0..12).collect();
    assert_eq!(
        rank_search_matches(&scores),
        vec![11, 10, 9, 8, 7, 6, 5, 4, 3, 2]
    );
}

#[test]
fn search_finds_the_best_matching_documents() {
    let documents = strings(&["the cat sat", "a dog ran", "cat and cat", "Catalog"]);
    let found = search_documents(&documents, "  Cat ").unwrap();
    assert_eq!(
        found,
        vec![
            (2, "cat and cat".to_string()),
            (0, "the cat sat".to_string()),
            (3, "Catalog".to_string()),
            (1, "a dog ran".to_string()),
        ]
    );
    assert!(search_documents(&documents, "   ").unwrap().is_empty());
    let two_words = search_documents(&documents, "DOG ran").unwrap();
    assert_eq!(two_words[0], (1, "a dog ran".to_string()));
}
