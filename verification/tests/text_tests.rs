use dimland::text::{is_whitespace, join_words};

#[test]
fn white_space_is_what_the_standard_library_says() {
    for code in 0..=0x10FFFFu32 {
        if let Some(c) = char::from_u32(code) {
            assert_eq!(is_whitespace(c), c.is_whitespace(), "U+{code:04X}");
        }
    }
}

#[test]
fn joining_puts_single_spaces_between() {
    let parts = vec![String::from("dimland"), String::from("-a"), String::from("0.3")];
    assert_eq!(join_words(&parts), "dimland -a 0.3");
    assert_eq!(join_words(&vec![String::from("solo")]), "solo");
    assert_eq!(join_words(&Vec::new()), "");
    assert_eq!(join_words(&vec![String::new(), String::new()]), " ");
}
