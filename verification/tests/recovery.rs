use armor_decrypt::armor::{decode, ArmorError};
use armor_decrypt::transform::{decrypt_data, TransformError};
use armor_decrypt::{recover, RecoverError};

#[test]
fn verify_decryption() {
    let encoded_data = "ag6PwXWf{g"; // 'S' => 1f b3 d8 1f b9 b3 d8 1f

    match decode(encoded_data.as_bytes()) {
        Ok(decoded_data) => {
            let decrypted_bytes = vec![31, 179, 216, 31, 185, 179, 216, 31];
            assert_eq!(decoded_data, decrypted_bytes);

            let decrypted_data = decrypt_data(&decoded_data).unwrap();
            let decrypted_string = String::from_utf8_lossy(&decrypted_data);

            assert_eq!(decrypted_string, "S");
        }
        _ => {}
    }
}

#[test]
fn decode_empty_input() {
    assert_eq!(decode(b""), Ok(vec![]));
}

#[test]
fn decode_known_group() {
    // A classic Z85 vector: two groups of five letters, eight bytes out.
    assert_eq!(
        decode(b"HelloWorld"),
        Ok(vec![0x86, 0x4F, 0xD2, 0x6F, 0xB5, 0x59, 0xF7, 0x5B])
    );
}

#[test]
fn decode_length_times_four_fifths() {
    // Ten letters in, exactly 10 / 5 * 4 = 8 bytes out.
    let decoded = decode(b"ag6PwXWf{g").unwrap();
    assert_eq!(decoded.len(), 8);
}

#[test]
fn decode_rejects_length_not_multiple_of_five() {
    assert_eq!(decode(b"abcdefg"), Err(ArmorError::InvalidLength(7)));
}

#[test]
fn decode_rejects_byte_outside_alphabet() {
    // A space is below the printable range.
    assert_eq!(decode(b" 1234"), Err(ArmorError::InvalidByte(0, 0x20)));
    // A tilde is printable but not one of the 85 letters; 0-based position.
    assert_eq!(decode(b"00000a~aaa"), Err(ArmorError::InvalidByte(6, 0x7E)));
}

#[test]
fn decode_rejects_oversized_group() {
    // "%%%%%" is the letter 82 five times: above 32 bits.
    assert_eq!(decode(b"%%%%%"), Err(ArmorError::InvalidChunk(0)));
    assert_eq!(decode(b"00000%%%%%"), Err(ArmorError::InvalidChunk(5)));
}

#[test]
fn decode_padded_tail() {
    // Three padding marks leave one byte.
    assert_eq!(decode(b"###00"), Ok(vec![0]));
    // Two padding marks leave two bytes.
    assert_eq!(decode(b"##000"), Ok(vec![0, 0]));
}

#[test]
fn decode_rejects_bad_tail() {
    // Four padding marks are too many.
    assert_eq!(decode(b"####0"), Err(ArmorError::InvalidTail));
    // One mark leaves three bytes, but the group's value needs four.
    assert_eq!(decode(b"#%%%%"), Err(ArmorError::InvalidTail));
}

#[test]
fn transform_single_window() {
    // The lone window of the armored sample yields ASCII 'S'.
    let raw = [31, 179, 216, 31, 185, 179, 216, 31];
    assert_eq!(decrypt_data(&raw), Ok(vec![0x53]));
}

#[test]
fn transform_is_deterministic() {
    let raw = [31, 179, 216, 31, 185, 179, 216, 31, 76, 1, 0, 0, 0, 0, 0, 0];
    let first = decrypt_data(&raw);
    let second = decrypt_data(&raw);
    assert_eq!(first, second);
}

#[test]
fn transform_drops_trailing_bytes() {
    // Three bytes past the last whole window change nothing.
    let raw = [31, 179, 216, 31, 185, 179, 216, 31, 1, 2, 3];
    assert_eq!(decrypt_data(&raw), Ok(vec![0x53]));
    // Fewer than eight bytes give no output at all.
    assert_eq!(decrypt_data(&[1, 2, 3]), Ok(vec![]));
    assert_eq!(decrypt_data(&[]), Ok(vec![]));
}

#[test]
fn transform_chains_state_across_windows() {
    // Two inputs with an identical second window: the differing first
    // window changes the second output byte through the carried state.
    let d1 = [31, 179, 216, 31, 185, 179, 216, 31, 76, 1, 0, 0, 0, 0, 0, 0];
    let d2 = [2, 0, 0, 0, 0, 0, 0, 0, 76, 1, 0, 0, 0, 0, 0, 0];
    assert_eq!(decrypt_data(&d1), Ok(vec![83, 2]));
    assert_eq!(decrypt_data(&d2), Ok(vec![1, 166]));
}

#[test]
fn transform_reports_division_by_zero() {
    // An all-zero first window outputs 0, so the second window's divisor
    // would be zero.
    let raw = [0u8; 16];
    assert_eq!(
        decrypt_data(&raw),
        Err(TransformError::DivisionByZero(1))
    );
}

#[test]
fn recover_pipeline() {
    assert_eq!(recover(b"ag6PwXWf{g"), Ok(vec![0x53]));
    assert_eq!(
        recover(b"abcdefg"),
        Err(RecoverError::Armor(ArmorError::InvalidLength(7)))
    );
    // Twenty '0' letters decode to sixteen zero bytes, which stall the
    // transform at its second window.
    assert_eq!(
        recover(b"00000000000000000000"),
        Err(RecoverError::Transform(TransformError::DivisionByZero(1)))
    );
}
