use flowsight_agent::text::{end_of_nth_word, is_whitespace};

#[test]
fn whitespace_class_agrees_with_std_on_every_char() {
    for v in 0u32..=0x10FFFF {
        if let Some(c) = char::from_u32(v) {
            assert_eq!(is_whitespace(c), c.is_whitespace(), "U+{v:04X}");
        }
    }
}

#[test]
fn nth_word_end_counts_from_one() {
    let s: Vec<char> = "  code review notes".chars().collect();
    assert_eq!(end_of_nth_word(&s, 1), 6);
    assert_eq!(end_of_nth_word(&s, 2), 13);
    assert_eq!(end_of_nth_word(&s, 4), s.len());
    assert_eq!(end_of_nth_word(&s, 0), s.len());
}
