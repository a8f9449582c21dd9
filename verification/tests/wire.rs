use static_config::error::{ConfigError, ErrorKind, FormatError};
use static_config::wire::{decode, encode, get_u32, put_u32, read_data_str, write_data_str};

fn pair(key: &str, value: &str) -> (String, String) {
    (key.to_string(), value.to_string())
}

#[test]
fn put_u32_writes_lowest_byte_first() {
    let mut out = vec![9];
    put_u32(&mut out, 0x0403_0201);
    assert_eq!(out, vec![9, 1, 2, 3, 4]);
    let mut out = Vec::new();
    put_u32(&mut out, u32::MAX);
    put_u32(&mut out, 0);
    assert_eq!(out, vec![255, 255, 255, 255, 0, 0, 0, 0]);
}

#[test]
fn get_u32_reads_what_put_u32_wrote() {
    let bytes = [7, 0x78, 0x56, 0x34, 0x12, 7];
    assert_eq!(get_u32(&bytes, 1), 0x1234_5678);
    for x in [0u32, 1, 255, 256, 65_535, 65_536, 16_777_215, 16_777_216, u32::MAX] {
        let mut out = Vec::new();
        put_u32(&mut out, x);
        assert_eq!(get_u32(&out, 0), x);
    }
}

#[test]
fn field_is_length_text_and_padding() {
    let mut out = Vec::new();
    write_data_str(&mut out, "hello");
    assert_eq!(out, vec![5, 0, 0, 0, b'h', b'e', b'l', b'l', b'o', 0, 0, 0]);
}

#[test]
fn field_of_four_bytes_has_no_padding() {
    let mut out = Vec::new();
    write_data_str(&mut out, "four");
    assert_eq!(out, vec![4, 0, 0, 0, b'f', b'o', b'u', b'r']);
}

#[test]
fn empty_field_is_its_length_alone() {
    let mut out = Vec::new();
    write_data_str(&mut out, "");
    assert_eq!(out, vec![0, 0, 0, 0]);
}

#[test]
fn field_length_counts_bytes_not_characters() {
    let mut out = Vec::new();
    write_data_str(&mut out, "é");
    assert_eq!(out, vec![2, 0, 0, 0, 0xc3, 0xa9, 0, 0]);
}

#[test]
fn encodes_one_entry_with_padding() {
    let blob = encode(&vec![pair("a", "hello")]).unwrap();
    assert_eq!(
        blob,
        vec![1, 0, 0, 0, b'a', 0, 0, 0, 5, 0, 0, 0, b'h', b'e', b'l', b'l', b'o', 0, 0, 0]
    );
}

#[test]
fn encodes_no_entries_as_no_bytes() {
    assert_eq!(encode(&Vec::new()).unwrap(), Vec::<u8>::new());
    assert_eq!(decode(&[], 0).unwrap(), Vec::new());
}

#[test]
fn length_is_a_multiple_of_four_after_every_entry() {
    let mut entries = Vec::new();
    for i in 0..9 {
        entries.push(pair(&"k".repeat(i), &"v".repeat(2 * i + 1)));
        assert_eq!(encode(&entries).unwrap().len() % 4, 0);
    }
}

#[test]
fn round_trip_keeps_order_and_duplicates() {
    let entries = vec![pair("k", "1"), pair("other", "two"), pair("k", "3"), pair("", "")];
    let blob = encode(&entries).unwrap();
    assert_eq!(decode(&blob, 4).unwrap(), entries);
}

#[test]
fn round_trip_keeps_text_that_is_not_ascii() {
    let entries = vec![pair("grüße", "こんにちは"), pair("=", "a=b=c"), pair("\0", "\n")];
    let blob = encode(&entries).unwrap();
    assert_eq!(decode(&blob, 3).unwrap(), entries);
}

#[test]
fn decode_reads_only_as_many_entries_as_it_is_told() {
    let entries = vec![pair("a", "1"), pair("b", "2"), pair("c", "3")];
    let blob = encode(&entries).unwrap();
    assert_eq!(decode(&blob, 2).unwrap(), entries[..2].to_vec());
    assert_eq!(decode(&blob, 0).unwrap(), Vec::new());
}

#[test]
fn decode_ignores_what_follows_the_entries() {
    let entries = vec![pair("greeting", "hello")];
    let mut blob = encode(&entries).unwrap();
    blob.extend_from_slice(&[0xff, 0xff, 0xff]);
    assert_eq!(decode(&blob, 1).unwrap(), entries);
}

#[test]
fn decode_fails_where_the_data_ends_before_a_length() {
    let blob = encode(&vec![pair("a", "1")]).unwrap();
    let error = decode(&blob, 2).unwrap_err();
    assert_eq!(error, ConfigError::Format(FormatError::TruncatedBlob { offset: 16 }));
    assert_eq!(error.kind(), ErrorKind::Format);
    assert_eq!(
        decode(&[1, 0, 0], 1).unwrap_err(),
        ConfigError::Format(FormatError::TruncatedBlob { offset: 0 })
    );
}

#[test]
fn decode_fails_where_the_data_ends_inside_a_text() {
    let blob = vec![1, 0, 0, 0, b'a', 0, 0, 0, 9, 0, 0, 0, b'x', 0, 0, 0];
    assert_eq!(
        decode(&blob, 1).unwrap_err(),
        ConfigError::Format(FormatError::TruncatedBlob { offset: 8 })
    );
}

#[test]
fn decode_fails_where_the_padding_is_cut_off() {
    let blob = vec![1, 0, 0, 0, b'a', 0, 0, 0, 1, 0, 0, 0, b'x', 0];
    assert_eq!(
        decode(&blob, 1).unwrap_err(),
        ConfigError::Format(FormatError::TruncatedBlob { offset: 8 })
    );
}

#[test]
fn decode_fails_on_a_length_that_no_data_could_hold() {
    let blob = vec![0xff, 0xff, 0xff, 0xff, b'a', 0, 0, 0];
    assert_eq!(
        decode(&blob, 1).unwrap_err(),
        ConfigError::Format(FormatError::TruncatedBlob { offset: 0 })
    );
}

#[test]
fn decode_fails_on_text_that_is_not_utf8() {
    let blob = vec![1, 0, 0, 0, b'a', 0, 0, 0, 2, 0, 0, 0, 0xc3, 0x28, 0, 0];
    assert_eq!(
        decode(&blob, 1).unwrap_err(),
        ConfigError::Format(FormatError::InvalidText { offset: 8 })
    );
}

#[test]
fn read_data_str_moves_past_the_padding() {
    let blob = encode(&vec![pair("key", "value")]).unwrap();
    let mut offset = 0;
    assert_eq!(read_data_str(&blob, &mut offset).unwrap(), "key");
    assert_eq!(offset, 8);
    assert_eq!(read_data_str(&blob, &mut offset).unwrap(), "value");
    assert_eq!(offset, 20);
}

#[test]
fn read_data_str_leaves_the_offset_where_it_fails() {
    let blob = vec![3, 0, 0, 0, b'a'];
    let mut offset = 0;
    assert_eq!(
        read_data_str(&blob, &mut offset).unwrap_err(),
        ConfigError::Format(FormatError::TruncatedBlob { offset: 0 })
    );
    assert_eq!(offset, 0);
    let mut offset = 9;
    assert_eq!(
        read_data_str(&blob, &mut offset).unwrap_err(),
        ConfigError::Format(FormatError::TruncatedBlob { offset: 9 })
    );
    assert_eq!(offset, 9);
}

/// A small generator of numbers that is the same on every run.
fn next(state: &mut u64) -> u64 {
    *state = state.wrapping_mul(6364136223846793005).wrapping_add(1442695040888963407);
    *state >> 33
}

fn text(state: &mut u64) -> String {
    let alphabet = ['a', 'b', '=', ' ', 'é', '本', '\u{1F600}', '\0'];
    let len = next(state) % 12;
    (0..len).map(|_| alphabet[(next(state) % 8) as usize]).collect()
}

#[test]
fn round_trip_holds_for_many_lists() {
    let mut state = 7;
    for _ in 0..300 {
        let count = next(&mut state) % 6;
        let entries: Vec<(String, String)> =
            (0..count).map(|_| (text(&mut state), text(&mut state))).collect();
        let mut blob = encode(&entries).unwrap();
        assert_eq!(blob.len() % 4, 0);
        let expected: usize = entries
            .iter()
            .map(|(k, v)| 8 + (k.len() + 3) / 4 * 4 + (v.len() + 3) / 4 * 4)
            .sum();
        assert_eq!(blob.len(), expected);
        assert_eq!(decode(&blob, count as u32).unwrap(), entries);
        blob.extend_from_slice(&[1, 2, 3, 4, 5]);
        assert_eq!(decode(&blob, count as u32).unwrap(), entries);
    }
}

#[test]
fn every_cut_of_the_data_is_refused() {
    let entries = vec![pair("key", "value"), pair("k", "")];
    let blob = encode(&entries).unwrap();
    for len in 0..blob.len() {
        let error = decode(&blob[..len], 2).unwrap_err();
        assert!(matches!(error, ConfigError::Format(FormatError::TruncatedBlob { .. })));
    }
}
