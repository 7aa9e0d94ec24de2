use thread_sensor::bytes::{u32_be_bytes, u32_le_bytes};
use thread_sensor::dataset::{parse_thread_dataset, parse_thread_dataset_from_env};
use thread_sensor::keys::{derive_thread_key_material, split_key_material};

const KEY_RECORD: &[u8] = b"051000112233445566778899aabbccddeeff";

#[test]
fn number_bytes() {
    assert_eq!(u32_be_bytes(0x01020304), [1, 2, 3, 4]);
    assert_eq!(u32_le_bytes(0x01020304), [4, 3, 2, 1]);
    assert_eq!(u32_be_bytes(u32::MAX), [255; 4]);
}

#[test]
fn keys_of_first_sequence() {
    let dataset = parse_thread_dataset(KEY_RECORD);
    let keys = derive_thread_key_material(&dataset, 0).unwrap();
    assert_eq!(keys.key_sequence, 0);
    assert_eq!(keys.key_id, 1);
    assert_eq!(
        keys.mle_key,
        [
            0x54, 0x45, 0xf4, 0x15, 0x8f, 0xd7, 0x59, 0x12, 0x17, 0x58, 0x09, 0xf8, 0xb5, 0x7a,
            0x66, 0xa4
        ]
    );
    assert_eq!(
        keys.mac_key,
        [
            0xde, 0x89, 0xc5, 0x3a, 0xf3, 0x82, 0xb4, 0x21, 0xe0, 0xfd, 0xe5, 0xa9, 0xba, 0xe3,
            0xbe, 0xf0
        ]
    );
}

#[test]
fn keys_of_later_sequence() {
    let dataset = parse_thread_dataset(KEY_RECORD);
    let keys = derive_thread_key_material(&dataset, 128).unwrap();
    assert_eq!(keys.key_sequence, 128);
    assert_eq!(keys.key_id, 1);
    assert_eq!(keys.mle_key[..4], [0xfd, 0x3f, 0x64, 0xd0]);
    assert_eq!(keys.mac_key[12..], [0xb6, 0x6b, 0x9e, 0xb1]);
    let keys = derive_thread_key_material(&dataset, u32::MAX).unwrap();
    assert_eq!(keys.key_id, 128);
    assert_eq!(keys.mle_key[..4], [0x66, 0x91, 0x23, 0xee]);
}

#[test]
fn no_network_key_no_keys() {
    let dataset = parse_thread_dataset_from_env(None);
    assert!(derive_thread_key_material(&dataset, 0).is_none());
}

#[test]
fn keys_depend_on_network_key_alone() {
    let mut text = b"0102beef".to_vec();
    text.extend_from_slice(KEY_RECORD);
    let a = derive_thread_key_material(&parse_thread_dataset(KEY_RECORD), 5).unwrap();
    let b = derive_thread_key_material(&parse_thread_dataset(&text), 5).unwrap();
    assert_eq!(a.mle_key, b.mle_key);
    assert_eq!(a.mac_key, b.mac_key);
}

#[test]
fn key_ids_cycle() {
    let hash = [0u8; 32];
    for (sequence, id) in [(0, 1), (1, 2), (126, 127), (127, 128), (128, 1), (255, 128), (256, 1)] {
        assert_eq!(split_key_material(&hash, sequence).key_id, id);
    }
}

#[test]
fn keys_cover_tag() {
    let mut hash = [0u8; 32];
    for i in 0..32 {
        hash[i] = i as u8;
    }
    let keys = split_key_material(&hash, 9);
    assert_eq!(keys.mle_key[..], hash[..16]);
    assert_eq!(keys.mac_key[..], hash[16..]);
}
