use thread_sensor::dataset::{
    parse_dataset_tlv, parse_thread_dataset, parse_thread_dataset_from_env, ActiveDataset,
    NetworkName, DEFAULT_CHANNEL, DEFAULT_PAN_ID,
};
use thread_sensor::hex::{hex_nibble, parse_hex_array, parse_hex_u16_be, parse_hex_u8};

const FULL: &str = "000300000b\
0102abcd\
02081122334455667788\
030454657374\
051000112233445566778899aabbccddeeff";

const KEY: [u8; 16] = [
    0x00, 0x11, 0x22, 0x33, 0x44, 0x55, 0x66, 0x77, 0x88, 0x99, 0xaa, 0xbb, 0xcc, 0xdd, 0xee, 0xff,
];

fn check_full(dataset: &ActiveDataset) {
    assert_eq!(dataset.channel, Some(11));
    assert_eq!(dataset.pan_id, Some(0xabcd));
    assert_eq!(dataset.ext_pan_id, Some([0x11, 0x22, 0x33, 0x44, 0x55, 0x66, 0x77, 0x88]));
    assert_eq!(dataset.network_key, Some(KEY));
    assert_eq!(dataset.network_name.len, 4);
    assert_eq!(&dataset.network_name.bytes[..5], b"Test\0");
}

fn check_empty(dataset: &ActiveDataset) {
    assert_eq!(dataset.channel, None);
    assert_eq!(dataset.pan_id, None);
    assert_eq!(dataset.ext_pan_id, None);
    assert_eq!(dataset.network_key, None);
    assert_eq!(dataset.network_name.len, 0);
    assert_eq!(dataset.network_name.bytes, [0; 32]);
}

#[test]
fn nibbles() {
    assert_eq!(hex_nibble(b'0'), Some(0));
    assert_eq!(hex_nibble(b'9'), Some(9));
    assert_eq!(hex_nibble(b'a'), Some(10));
    assert_eq!(hex_nibble(b'f'), Some(15));
    assert_eq!(hex_nibble(b'A'), Some(10));
    assert_eq!(hex_nibble(b'F'), Some(15));
    for b in [b'/', b':', b'`', b'g', b'@', b'G', b' ', 0, 0xff] {
        assert_eq!(hex_nibble(b), None);
    }
}

#[test]
fn hex_bytes() {
    assert_eq!(parse_hex_u8(b"0aF5", 0), Some(0x0a));
    assert_eq!(parse_hex_u8(b"0aF5", 1), Some(0xaf));
    assert_eq!(parse_hex_u8(b"0aF5", 2), Some(0xf5));
    assert_eq!(parse_hex_u8(b"0aF5", 3), None);
    assert_eq!(parse_hex_u8(b"0aF5", usize::MAX), None);
    assert_eq!(parse_hex_u8(b"0g", 0), None);
    assert_eq!(parse_hex_u8(b"", 0), None);
}

#[test]
fn hex_numbers() {
    assert_eq!(parse_hex_u16_be(b"12aB", 0), Some(0x12ab));
    assert_eq!(parse_hex_u16_be(b"12a", 0), None);
    assert_eq!(parse_hex_u16_be(b"12xx", 0), None);
    assert_eq!(parse_hex_u16_be(b"xx12", 0), None);
}

#[test]
fn hex_arrays() {
    let mut out = [9u8; 3];
    assert!(parse_hex_array(b"x010203", 1, &mut out));
    assert_eq!(out, [1, 2, 3]);
    let mut out = [9u8; 3];
    assert!(!parse_hex_array(b"01zz03", 0, &mut out));
    assert_eq!(out, [1, 9, 9]);
    let mut out = [9u8; 3];
    assert!(!parse_hex_array(b"0102", 0, &mut out));
    assert_eq!(out, [1, 2, 9]);
    let mut none: [u8; 0] = [];
    assert!(parse_hex_array(b"", 7, &mut none));
}

#[test]
fn full_dataset_is_read() {
    let dataset = parse_thread_dataset_from_env(Some(FULL));
    check_full(&dataset);
    assert_eq!(dataset.channel_or_default(), 11);
    assert_eq!(dataset.pan_id_or_default(), 0xabcd);
}

#[test]
fn missing_text_gives_defaults() {
    let dataset = parse_thread_dataset_from_env(None);
    check_empty(&dataset);
    assert_eq!(dataset.channel_or_default(), DEFAULT_CHANNEL);
    assert_eq!(dataset.channel_or_default(), 15);
    assert_eq!(dataset.pan_id_or_default(), DEFAULT_PAN_ID);
    assert_eq!(dataset.pan_id_or_default(), 0x06e6);
}

#[test]
fn short_texts_tell_nothing() {
    for text in ["", "0", "00", "000"] {
        check_empty(&parse_thread_dataset_from_env(Some(text)));
    }
}

#[test]
fn case_does_not_matter() {
    check_full(&parse_thread_dataset(FULL.to_uppercase().as_bytes()));
}

#[test]
fn what_follows_does_not_change_records() {
    for tail in ["0", "zz", "0510aabb", "00zz", "ff", "ff02abcd", "é"] {
        let text = format!("{FULL}{tail}");
        check_full(&parse_thread_dataset(text.as_bytes()));
    }
}

#[test]
fn reading_stops_at_malformed_record() {
    let dataset = parse_thread_dataset(b"0102abcd0zzz0102ffff");
    assert_eq!(dataset.pan_id, Some(0xabcd));
    let dataset = parse_thread_dataset(b"0102abcd01ff0102ffff");
    assert_eq!(dataset.pan_id, Some(0xabcd));
}

#[test]
fn later_record_acts_last() {
    assert_eq!(parse_thread_dataset(b"0102abcd01021234").pan_id, Some(0x1234));
    assert_eq!(parse_thread_dataset(b"0003000010000300000c").channel, Some(12));
}

#[test]
fn unreadable_pan_id_clears_it() {
    assert_eq!(parse_thread_dataset(b"0102abcd010212xx").pan_id, None);
}

#[test]
fn unreadable_channel_keeps_it() {
    assert_eq!(parse_thread_dataset(b"000300001000030000xx").channel, Some(16));
    assert_eq!(parse_thread_dataset(b"0003000010000300xx0c").channel, Some(16));
}

#[test]
fn channel_page_is_not_looked_at() {
    assert_eq!(parse_thread_dataset(b"0003xx0014").channel, Some(20));
    assert_eq!(parse_thread_dataset(b"0003000114").channel, Some(20));
}

#[test]
fn unreadable_key_keeps_it() {
    let text = format!("{FULL}0510xx112233445566778899aabbccddeeff");
    check_full(&parse_thread_dataset(text.as_bytes()));
}

#[test]
fn wrong_lengths_and_unknown_types_are_ignored() {
    let text = format!("{FULL}0002000c0101ff0201ff0501ff0402dead0e080000000000010000ff00");
    check_full(&parse_thread_dataset(text.as_bytes()));
}

#[test]
fn long_name_is_cut() {
    let text = format!("0328{}", "41".repeat(40));
    let name = parse_thread_dataset(text.as_bytes()).network_name;
    assert_eq!(name.len, 32);
    assert_eq!(name.bytes, [0x41; 32]);
}

#[test]
fn unreadable_name_bytes_leave_gaps() {
    let name = parse_thread_dataset(b"030341zz43").network_name;
    assert_eq!(name.len, 2);
    assert_eq!(&name.bytes[..4], &[0x41, 0, 0x43, 0]);
}

#[test]
fn single_record() {
    let mut dataset = parse_thread_dataset_from_env(None);
    parse_dataset_tlv(&mut dataset, 0x01, 2, b"--beef", 2);
    assert_eq!(dataset.pan_id, Some(0xbeef));
    parse_dataset_tlv(&mut dataset, 0x02, 8, b"0102030405060708", 0);
    assert_eq!(dataset.ext_pan_id, Some([1, 2, 3, 4, 5, 6, 7, 8]));
    parse_dataset_tlv(&mut dataset, 0x02, 8, b"0102", 0);
    assert_eq!(dataset.ext_pan_id, Some([1, 2, 3, 4, 5, 6, 7, 8]));
    parse_dataset_tlv(&mut dataset, 0x77, 8, b"0102", usize::MAX);
    assert_eq!(dataset.pan_id, Some(0xbeef));
}

#[test]
fn empty_name() {
    let name = NetworkName::empty();
    assert_eq!(name.len, 0);
    assert_eq!(name.bytes, [0; 32]);
}

#[test]
fn report_tells_all_but_the_key() {
    let dataset = parse_thread_dataset_from_env(Some(FULL));
    let report = dataset.report();
    assert_eq!(report.channel, 11);
    assert_eq!(report.pan_id, 0xabcd);
    assert_eq!(report.ext_pan_id, dataset.ext_pan_id);
    assert_eq!(report.network_name, Some(&b"Test"[..]));
    assert!(report.network_key_present);

    let dataset = parse_thread_dataset_from_env(None);
    let report = dataset.report();
    assert_eq!(report.channel, 15);
    assert_eq!(report.pan_id, 0x06e6);
    assert_eq!(report.ext_pan_id, None);
    assert_eq!(report.network_name, None);
    assert!(!report.network_key_present);
}

#[test]
fn unknown_records_are_skipped() {
    let records = ["000300000b", "0102abcd", "02081122334455667788", "030454657374"];
    let key = "051000112233445566778899aabbccddeeff";
    for i in 0..=records.len() {
        let (front, back) = records.split_at(i);
        let text = format!("{}0703aabbcc{}{key}", front.concat(), back.concat());
        check_full(&parse_thread_dataset(text.as_bytes()));
    }
}

#[test]
fn cut_off_record_is_skipped() {
    let record = "051000000000000000000000000000000000";
    for n in 0..record.len() {
        let text = format!("{FULL}{}", &record[..n]);
        check_full(&parse_thread_dataset(text.as_bytes()));
    }
    let text = format!("{FULL}{record}");
    assert_eq!(parse_thread_dataset(text.as_bytes()).network_key, Some([0; 16]));
}

#[test]
fn order_of_records_does_not_matter() {
    let text = "051000112233445566778899aabbccddeeff\
030454657374\
02081122334455667788\
000300000b\
0102abcd";
    check_full(&parse_thread_dataset(text.as_bytes()));
}
