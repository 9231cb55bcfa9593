use fototpm::form::{erase, type_digit, type_text_char};
use fototpm::text::is_yes;

#[test]
fn text_field_takes_printable_characters_up_to_its_size() {
    let mut b = Vec::new();
    for c in "ab c~}".chars() {
        type_text_char(&mut b, c, 32);
    }
    assert_eq!(b, b"ab c}".to_vec());
    let mut b = b"1234567".to_vec();
    type_text_char(&mut b, 'x', 8);
    type_text_char(&mut b, 'y', 8);
    assert_eq!(b, b"1234567x".to_vec());
    let mut b = Vec::new();
    type_text_char(&mut b, '\n', 8);
    assert!(b.is_empty());
}

#[test]
fn typed_character_is_cut_to_a_byte() {
    let mut b = Vec::new();
    type_text_char(&mut b, '\u{141}', 8);
    assert_eq!(b, b"A".to_vec());
}

#[test]
fn number_field_takes_digits_only() {
    let mut b = Vec::new();
    for c in "1a2-3".chars() {
        type_digit(&mut b, c, 2);
    }
    assert_eq!(b, b"12".to_vec());
}

#[test]
fn erasing_a_byte_or_a_word() {
    let mut b = b"foto di gruppo".to_vec();
    erase(&mut b, false);
    assert_eq!(b, b"foto di grupp".to_vec());
    erase(&mut b, true);
    assert_eq!(b, b"foto di".to_vec());
    erase(&mut b, true);
    assert_eq!(b, b"foto".to_vec());
    erase(&mut b, true);
    assert!(b.is_empty());
    erase(&mut b, true);
    erase(&mut b, false);
    assert!(b.is_empty());
}

#[test]
fn yes_answers() {
    for a in ["Y", "y", "yes", "YES", "Yes"] {
        assert!(is_yes(a));
    }
    for a in ["", "n", "no", "yEs", " y"] {
        assert!(!is_yes(a));
    }
}
