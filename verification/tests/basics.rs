use mini_grep::basics::{add_fancy_hat, first_word, five, move_player, remove_fancy_hat};

#[test]
fn five_is_five() {
    assert_eq!(five(), 5);
}

#[test]
fn first_word_stops_at_the_first_space() {
    assert_eq!(first_word("hello world"), "hello");
    assert_eq!(first_word("one two three"), "one");
}

#[test]
fn first_word_of_spaceless_text_is_the_text() {
    assert_eq!(first_word("hello"), "hello");
}

#[test]
fn first_word_of_empty_text_is_empty() {
    assert_eq!(first_word(""), "");
}

#[test]
fn first_word_of_leading_space_is_empty() {
    assert_eq!(first_word(" leading"), "");
}

#[test]
fn hat_and_player_stubs_do_nothing() {
    add_fancy_hat();
    remove_fancy_hat();
    move_player(9);
}
