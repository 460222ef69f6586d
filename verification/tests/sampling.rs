use sentence_gpt_rs_mlx::model::CharacterTokenizer;
use sentence_gpt_rs_mlx::sampling::normalize_sample_prefix;

#[test]
fn sample_prefix_keeps_known_lowercase_characters() {
    let tokenizer = CharacterTokenizer::new(vec![' ', 'e', 'h', 'l', 'o'], 5);
    assert_eq!(normalize_sample_prefix("  HeLLo, Zed  ", &tokenizer, 20), "hello e");
    assert_eq!(normalize_sample_prefix("  HeLLo, Zed  ", &tokenizer, 5), "hell");
    assert_eq!(normalize_sample_prefix("xyz", &tokenizer, 5), "");
    assert_eq!(normalize_sample_prefix("hello", &tokenizer, 1), "");
}
