use message_archive::decode::decrypt_message;
use message_archive::encode::encrypt_message;
use message_archive::keystream::{crypt, table_mask};

#[test]
fn table_mask_of_first_entry_under_key_one() {
    assert_eq!(table_mask(1, 1), 0x02FD_02FD);
}

#[test]
fn table_mask_repeats_the_local_key_in_both_halves() {
    assert_eq!(table_mask(2, 1), 0x05FA_05FA);
    assert_eq!(table_mask(3, 0x00FF), 0xEE09_EE09);
    assert_eq!(table_mask(1, 0x1234), 0x6564_6564);
    assert_eq!(table_mask(2, 0x1234), 0xCAC8_CAC8);
}

#[test]
fn table_mask_wraps_at_sixteen_bits() {
    assert_eq!(table_mask(65535, 65535), 0x02FD_02FD);
}

#[test]
fn table_mask_is_zero_under_key_zero() {
    assert_eq!(table_mask(1, 0), 0);
    assert_eq!(table_mask(40000, 0), 0);
}

#[test]
fn masking_twice_gives_the_field_back() {
    let mut index: u16 = 1;
    let mut key: u16 = 0;
    for round in 0..500u32 {
        let mask = table_mask(index, key);
        let field = round.wrapping_mul(0x9E37_79B9);
        assert_eq!((field ^ mask) ^ mask, field);
        index = index.wrapping_mul(7).wrapping_add(3) | 1;
        key = key.wrapping_mul(31).wrapping_add(17);
    }
}

#[test]
fn body_keystream_of_first_message() {
    let zeros = vec![0u16; 4];
    assert_eq!(crypt(&zeros, 1), vec![0x1BD3, 0x6510, 0xAE4D, 0xF78A]);
}

#[test]
fn body_keystream_of_second_message() {
    let zeros = vec![0u16; 3];
    assert_eq!(crypt(&zeros, 2), vec![0x37A6, 0x80E3, 0xCA20]);
}

#[test]
fn body_keystream_of_last_possible_message() {
    let zeros = vec![0u16; 4];
    let keys = crypt(&zeros, 65535);
    assert_eq!(keys[0], 0xE42D);
    assert_eq!(keys[3], 0xBFE4);
}

#[test]
fn body_keystream_of_index_zero_starts_at_zero() {
    let zeros = vec![0u16; 2];
    assert_eq!(crypt(&zeros, 0), vec![0, 18749]);
}

#[test]
fn decrypt_message_xors_each_unit_with_its_key() {
    let encrypted = vec![0x0041 ^ 0x1BD3, 0xFFFF ^ 0x6510];
    assert_eq!(decrypt_message(&encrypted, 1), vec![0x0041, 0xFFFF]);
}

#[test]
fn encrypt_message_xors_each_unit_with_its_key() {
    let plain = vec![0x0041, 0xFFFF];
    assert_eq!(encrypt_message(&plain, 1), vec![0x1B92, 0x9AEF]);
}

#[test]
fn decrypt_of_empty_message_is_empty() {
    assert_eq!(decrypt_message(&Vec::new(), 7), Vec::<u16>::new());
}

#[test]
fn decrypting_what_was_encrypted_gives_the_codes_back() {
    let codes: Vec<u16> = (0..300u32).map(|n| (n * 2654435761u32 >> 7) as u16).collect();
    for index in [0u16, 1, 2, 77, 7194, 7195, 40000, 65535] {
        let encrypted = encrypt_message(&codes, index);
        assert_eq!(encrypted.len(), codes.len());
        assert_eq!(decrypt_message(&encrypted, index), codes);
    }
}

#[test]
fn encrypting_under_another_index_differs() {
    let codes = vec![1u16, 2, 3];
    assert_ne!(encrypt_message(&codes, 1), encrypt_message(&codes, 2));
}
