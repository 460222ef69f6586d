use sentence_gpt_rs_mlx::display::{
    count_scale, CountScale,
    embedding_column_ticks, format_elapsed_training_time, token_label, token_title,
};
use sentence_gpt_rs_mlx::model::CharacterTokenizer;

#[test]
fn elapsed_time_is_shown_in_minutes_or_hours() {
    assert_eq!(format_elapsed_training_time(0), "0m 00s");
    assert_eq!(format_elapsed_training_time(189_999), "3m 09s");
    assert_eq!(format_elapsed_training_time(7_389_000), "2h 03m 09s");
    assert_eq!(format_elapsed_training_time(36_000_000), "10h 00m 00s");
    assert_eq!(
        format_elapsed_training_time(u128::MAX),
        "94522879700260684295381835397713h 23m 31s"
    );
}

#[test]
fn token_labels_and_titles_name_the_character() {
    let tokenizer = CharacterTokenizer::new(vec!['\n', '\t', ' ', 'a'], 4);
    assert_eq!(token_label(&tokenizer, 0), "\\n");
    assert_eq!(token_label(&tokenizer, 1), "\\t");
    assert_eq!(token_label(&tokenizer, 2), " ");
    assert_eq!(token_label(&tokenizer, 3), "a");
    assert_eq!(token_label(&tokenizer, 4), "<B>");
    assert_eq!(token_label(&tokenizer, 9), "?");
    assert_eq!(token_title(&tokenizer, 4), "token 4: sequence boundary");
    assert_eq!(token_title(&tokenizer, 2), "token 2: space");
    assert_eq!(token_title(&tokenizer, 3), "token 3: 'a'");
    assert_eq!(token_title(&tokenizer, 12), "token 12: unknown");
}

#[test]
fn embedding_ticks_label_every_or_every_eighth_column() {
    assert_eq!(embedding_column_ticks(4), vec![0, 1, 2, 3]);
    assert_eq!(embedding_column_ticks(0), Vec::<usize>::new());
    assert_eq!(embedding_column_ticks(32), vec![0, 4, 8, 12, 16, 20, 24, 28, 31]);
    assert_eq!(embedding_column_ticks(20), vec![0, 2, 4, 6, 8, 10, 12, 14, 16, 18, 19]);
    assert_eq!(embedding_column_ticks(17), vec![0, 2, 4, 6, 8, 10, 12, 14, 16]);
}

#[test]
fn counts_pick_their_unit() {
    assert_eq!(count_scale(999), CountScale::Units);
    assert_eq!(count_scale(1_000), CountScale::Thousands);
    assert_eq!(count_scale(999_999), CountScale::Thousands);
    assert_eq!(count_scale(1_000_000), CountScale::Millions);
}
