use caesar::cipher::{ciphered_core, decode_word, encode_word, CipherError, Operation};

#[test]
fn test_generate_ciphered_word() {
    let word = String::from("HELLO");
    let caesar_code_arg = 3;
    let result = encode_word(&word, caesar_code_arg);
    assert_eq!(result.unwrap(), "KHOOR");
}

#[test]
fn test_generate_ciphered_word_2() {
    let word = String::from("thiago");
    let caesar_code_arg = 3;
    let result = encode_word(&word, caesar_code_arg);
    assert_eq!(result.unwrap(), "WKLDJR");
}

#[test]
fn test_generate_ciphered_word_with_wraparound() {
    let word = String::from("XYZ");
    let caesar_code_arg = 3;
    let result = encode_word(&word, caesar_code_arg);
    assert_eq!(result.unwrap(), "ABC");
}

#[test]
fn test_generate_ciphered_word_with_lowercase() {
    let word = String::from("hello");
    let caesar_code_arg = 3;
    let result = encode_word(&word, caesar_code_arg);
    assert_eq!(result.unwrap(), "KHOOR");
}

#[test]
fn test_generate_un_ciphered_word() {
    let word = String::from("KHOOR");
    let caesar_code_arg = 3;
    let result = decode_word(&word, caesar_code_arg);
    assert_eq!(result.unwrap(), "HELLO");
}

#[test]
fn test_generate_un_ciphered_word_2() {
    let word = String::from("WKLDJR");
    let caesar_code_arg = 3;
    let result = decode_word(&word, caesar_code_arg);
    assert_eq!(result.unwrap(), "THIAGO");
}

#[test]
fn test_round_trip_recovers_uppercase_word() {
    let word = String::from("Attack");
    let encoded = encode_word(&word, 7).unwrap();
    let decoded = decode_word(&encoded, 7).unwrap();
    assert_eq!(decoded, "ATTACK");
}

#[test]
fn test_decode_wraparound() {
    let word = String::from("ABC");
    let result = decode_word(&word, 3);
    assert_eq!(result.unwrap(), "XYZ");
}

#[test]
fn test_case_normalization_matches_uppercase_input() {
    let lower = String::from("hello");
    let upper = String::from("HELLO");
    assert_eq!(encode_word(&lower, 3).unwrap(), encode_word(&upper, 3).unwrap());
}

#[test]
fn test_identity_shift_only_uppercases() {
    let word = String::from("Hello");
    assert_eq!(encode_word(&word, 0).unwrap(), "HELLO");
    assert_eq!(decode_word(&word, 0).unwrap(), "HELLO");
}

#[test]
fn test_length_is_preserved() {
    let word = String::from("abcXYZ");
    assert_eq!(encode_word(&word, 11).unwrap().len(), word.len());
    assert_eq!(decode_word(&word, 11).unwrap().len(), word.len());
}

#[test]
fn test_invalid_character_is_rejected_on_encode() {
    let word = String::from("HELLO!");
    assert_eq!(encode_word(&word, 3), Err(CipherError::InvalidCharacter));
}

#[test]
fn test_invalid_character_is_rejected_on_decode() {
    let word = String::from("HI THERE");
    assert_eq!(decode_word(&word, 3), Err(CipherError::InvalidCharacter));
}

#[test]
fn test_large_shift_reduces_modulo_alphabet() {
    let word = String::from("HELLO");
    assert_eq!(encode_word(&word, 29).unwrap(), "KHOOR");
    assert_eq!(encode_word(&word, 29).unwrap(), encode_word(&word, 3).unwrap());
}

#[test]
fn test_shift_of_exactly_26_decodes_as_identity() {
    let word = String::from("khoor");
    assert_eq!(decode_word(&word, 26).unwrap(), "KHOOR");
}

#[test]
fn test_empty_word_transforms_to_empty() {
    let word = String::new();
    assert_eq!(encode_word(&word, 5).unwrap(), "");
    assert_eq!(decode_word(&word, 5).unwrap(), "");
}

#[test]
fn test_ciphered_core_dispatches_on_operation() {
    let word = String::from("XYZ");
    assert_eq!(ciphered_core(&word, 3, Operation::Encode).unwrap(), "ABC");
    assert_eq!(ciphered_core(&word, 3, Operation::Decode).unwrap(), "UVW");
}

#[test]
fn test_maximal_shift_value_is_absorbed() {
    let word = String::from("A");
    // 255 % 26 == 21, so 'A' moves to the letter at position 21.
    assert_eq!(encode_word(&word, 255).unwrap(), "V");
    assert_eq!(decode_word(&word, 255).unwrap(), "F");
}
