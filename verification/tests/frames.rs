use ccm::aead::{AeadInPlace, KeyInit};
use thread_sensor::mac::{parse_frame_header, FrameSummary, MacAddress, MAX_FRAME_LEN};
use thread_sensor::payload::{after_decryption, buffer_from, decrypt_buffer, PAYLOAD_CAPACITY};
use thread_sensor::receive::{
    carry_out, ccm_nonce, decide, receive_frame, DataFrame, FrameAction, FrameError, FrameOutcome,
    SecurityFields, SkipReason,
};
use thread_sensor::receiver::{RadioEvent, RxCounters, RxReport, RX_POLL_MILLIS};

const KEY: [u8; 16] = [
    0x00, 0x11, 0x22, 0x33, 0x44, 0x55, 0x66, 0x77, 0x88, 0x99, 0xaa, 0xbb, 0xcc, 0xdd, 0xee, 0xff,
];
const SOURCE: [u8; 8] = [0x11, 0x22, 0x33, 0x44, 0x55, 0x66, 0x77, 0x88];
const PLAIN: &str = "41d82ae606ffff88776655443322117a3211123468656c6c6f";
const SECURED: &str = "49d82ae606ffff88776655443322110d04030201011a139adf6ec0c9e818d9bc0b2057";
const PAYLOAD: &str = "7a3211123468656c6c6f";

fn hex(text: &str) -> Vec<u8> {
    (0..text.len() / 2).map(|i| u8::from_str_radix(&text[2 * i..2 * i + 2], 16).unwrap()).collect()
}

fn skip_reason(frame: &str) -> SkipReason {
    match receive_frame(&hex(frame), &KEY) {
        Ok(FrameOutcome::Skipped(reason)) => reason,
        _ => panic!(),
    }
}

fn error(frame: &[u8]) -> FrameError {
    match receive_frame(frame, &KEY) {
        Err(e) => e,
        _ => panic!(),
    }
}

fn check_delivered(frame: &[u8], key: &[u8; 16]) {
    match receive_frame(frame, key) {
        Ok(FrameOutcome::Delivered { payload, header }) => {
            assert_eq!(payload.as_slice(), &hex(PAYLOAD)[..]);
            let header = header.unwrap();
            assert_eq!(header.src_addr[..], hex("fe800000000000001322334455667788"));
            assert_eq!(header.dst_addr[..], hex("fe80000000000000000000fffe001234"));
            assert_eq!(header.next_header, Some(0x11));
            assert_eq!(header.hop_limit, 64);
            assert_eq!(header.ecn, None);
            assert_eq!(header.dscp, None);
            assert_eq!(header.flow_label, None);
        }
        _ => panic!(),
    }
}

#[test]
fn header_is_read() {
    let header = parse_frame_header(&hex(SECURED)).unwrap();
    assert_eq!(
        header.summary,
        FrameSummary {
            frame_type: 1,
            security_enabled: true,
            frame_pending: false,
            ack_request: false,
            sequence_number: Some(0x2a),
            pan_id_compression: true,
            frame_version: 1,
            dst_pan_id: Some(0x06e6),
            src_pan_id: None,
        }
    );
    assert_eq!(header.dst_addr, Some(MacAddress::Short([0xff, 0xff])));
    assert_eq!(header.src_addr, Some(MacAddress::Extended(SOURCE)));
}

#[test]
fn header_must_be_whole() {
    let frame = hex(SECURED);
    for len in 0..21 {
        assert!(parse_frame_header(&frame[..len]).is_none());
    }
    assert!(parse_frame_header(&frame[..21]).is_some());
}

#[test]
fn overlong_frame_has_no_header() {
    let mut frame = hex(PLAIN);
    frame.resize(MAX_FRAME_LEN, 0);
    assert!(parse_frame_header(&frame).is_some());
    frame.push(0);
    assert!(parse_frame_header(&frame).is_none());
    assert_eq!(error(&frame), FrameError::Malformed);
}

#[test]
fn plain_payload_is_delivered_under_any_key() {
    check_delivered(&hex(PLAIN), &KEY);
    check_delivered(&hex(PLAIN), &[0; 16]);
}

#[test]
fn secured_payload_is_decrypted() {
    check_delivered(&hex(SECURED), &KEY);
}

#[test]
fn secured_empty_payload() {
    match receive_frame(&hex("49d82ae606ffff88776655443322110d040302010152e21a21"), &KEY) {
        Ok(FrameOutcome::Delivered { payload, header }) => {
            assert!(payload.is_empty());
            assert!(header.is_none());
        }
        _ => panic!(),
    }
}

#[test]
fn payload_without_compressed_header() {
    match receive_frame(&hex("41d82ae606ffff88776655443322113f3211"), &KEY) {
        Ok(FrameOutcome::Delivered { payload, header }) => {
            assert_eq!(payload.as_slice(), &[0x3f, 0x32, 0x11]);
            assert!(header.is_none());
        }
        _ => panic!(),
    }
}

#[test]
fn traffic_class_and_compressed_next_header() {
    match receive_frame(&hex("41d82ae606ffff88776655443322116532c50003211234"), &KEY) {
        Ok(FrameOutcome::Delivered { header: Some(header), .. }) => {
            assert_eq!(header.next_header, None);
            assert_eq!(header.hop_limit, 1);
            assert_eq!(header.ecn, Some(0xc0));
            assert_eq!(header.dscp, Some(0x05));
            assert_eq!(header.flow_label, Some(0x0321));
        }
        _ => panic!(),
    }
}

#[test]
fn forged_frames_are_refused() {
    let frame = hex(SECURED);
    for i in 21..frame.len() {
        let mut forged = frame.clone();
        forged[i] ^= 1;
        assert_eq!(error(&forged), FrameError::NotAuthentic);
    }
    for i in [2, 3, 5, 7, 14, 16, 19, 20] {
        let mut forged = frame.clone();
        forged[i] ^= 1;
        assert_eq!(error(&forged), FrameError::NotAuthentic);
    }
    assert!(matches!(receive_frame(&frame, &[0; 16]), Err(FrameError::NotAuthentic)));
}

#[test]
fn other_frames_are_skipped() {
    assert_eq!(skip_reason("02002a"), SkipReason::NotData);
    assert_eq!(skip_reason("0000"), SkipReason::NotData);
    assert_eq!(skip_reason("0308"), SkipReason::NotData);
}

#[test]
fn other_security_levels_are_skipped() {
    for level in [0u8, 1, 2, 3, 4, 6, 7] {
        let mut frame = hex(SECURED);
        frame[15] = 0x08 | level;
        match receive_frame(&frame, &KEY) {
            Ok(FrameOutcome::Skipped(reason)) => {
                assert_eq!(reason, SkipReason::SecurityLevel(level))
            }
            _ => panic!(),
        }
    }
}

#[test]
fn nonce_needs_extended_source() {
    assert_eq!(skip_reason("49982ae606ffff34120d0403020101aabbccddee"), SkipReason::SourceLength(2));
    assert_eq!(skip_reason("49182ae606ffff0d0403020101aabbccddee"), SkipReason::SourceLength(0));
}

#[test]
fn malformed_frames() {
    assert_eq!(error(&[]), FrameError::Malformed);
    assert_eq!(error(&[0x02]), FrameError::Malformed);
    assert_eq!(error(&[0x41, 0xd8]), FrameError::Malformed);
    let frame = hex(SECURED);
    for len in 0..21 {
        assert_eq!(error(&frame[..len]), FrameError::Malformed);
    }
}

#[test]
fn missing_security_fields() {
    let frame = hex("49d82ae606ffff88776655443322112d01aabbccddee");
    assert_eq!(error(&frame), FrameError::NoFrameCounter);
    let frame = hex("49582ae606ffff0d0403020101aabbccddee");
    assert_eq!(error(&frame), FrameError::NoSourceAddress);
}

#[test]
fn payload_shorter_than_code() {
    let frame = hex(SECURED);
    for len in 21..25 {
        assert_eq!(error(&frame[..len]), FrameError::PayloadTooShort);
    }
    assert_eq!(error(&frame[..25]), FrameError::NotAuthentic);
}

#[test]
fn decisions() {
    let fields = |mic| DataFrame {
        payload: Some(&[1, 2, 3, 4, 5, 6]),
        security: Some(SecurityFields {
            level: 5,
            frame_counter: Some(0x01020304),
            source: Some(MacAddress::Extended(SOURCE)),
            header: &[9, 8],
            mic,
        }),
    };
    assert!(matches!(decide(&fields(None)), Err(FrameError::NoIntegrityCode)));
    match decide(&fields(Some([3, 4, 5, 6]))) {
        Ok(FrameAction::Decrypt { nonce, aad, ciphertext, mic }) => {
            assert_eq!(nonce[..], hex("11223344556677880403020105"));
            assert_eq!(aad, [9, 8]);
            assert_eq!(ciphertext, [1, 2]);
            assert_eq!(mic, [3, 4, 5, 6]);
        }
        _ => panic!(),
    }
    let empty = DataFrame { payload: None, security: None };
    assert!(matches!(decide(&empty), Ok(FrameAction::Skip(SkipReason::NoPayload))));
    let plain = DataFrame { payload: Some(&[7]), security: None };
    assert!(matches!(decide(&plain), Ok(FrameAction::Deliver(&[7]))));
}

#[test]
fn actions() {
    assert!(matches!(
        carry_out(FrameAction::Skip(SkipReason::NoPayload), &KEY),
        Ok(Err(SkipReason::NoPayload))
    ));
    let long = [1u8; PAYLOAD_CAPACITY + 1];
    assert!(matches!(
        carry_out(FrameAction::Deliver(&long), &KEY),
        Ok(Err(SkipReason::TooLong))
    ));
    assert!(matches!(
        carry_out(
            FrameAction::Decrypt { nonce: [0; 13], aad: &[], ciphertext: &long, mic: [0; 4] },
            &KEY
        ),
        Ok(Err(SkipReason::TooLong))
    ));
    match carry_out(FrameAction::Deliver(&long[1..]), &KEY) {
        Ok(Ok(payload)) => assert_eq!(payload.as_slice(), &long[1..]),
        _ => panic!(),
    }
}

#[test]
fn nonces() {
    assert_eq!(ccm_nonce(&SOURCE, 0x01020304, 5)[..], hex("11223344556677880403020105"));
    let nonce = ccm_nonce(&SOURCE, 1, 5);
    assert_ne!(nonce, ccm_nonce(&SOURCE, 2, 5));
    assert_ne!(nonce, ccm_nonce(&SOURCE, 1 << 24, 5));
    assert_ne!(nonce, ccm_nonce(&SOURCE, 1, 6));
    assert_ne!(nonce, ccm_nonce(&[0; 8], 1, 5));
}

#[test]
fn buffers() {
    assert_eq!(buffer_from(&[]).unwrap().as_slice(), &[] as &[u8]);
    assert_eq!(buffer_from(&[1, 2, 3]).unwrap().as_slice(), &[1, 2, 3]);
    assert!(buffer_from(&[0; 127]).is_some());
    assert!(buffer_from(&[0; 128]).is_none());
}

#[test]
fn results_of_decryption() {
    let buffer = buffer_from(&[1, 2]).unwrap();
    assert_eq!(after_decryption(buffer.clone(), Ok(())).unwrap().as_slice(), &[1, 2]);
    assert!(after_decryption(buffer, Err(ccm::aead::Error)).is_none());
}

#[test]
fn decryption_undoes_encryption() {
    let cipher = ccm::Ccm::<aes::Aes128, ccm::consts::U4, ccm::consts::U13>::new((&KEY).into());
    let nonce = ccm_nonce(&SOURCE, 77, 5);
    let mut buffer = buffer_from(b"some payload").unwrap();
    let tag = cipher.encrypt_in_place_detached((&nonce).into(), b"aad", &mut buffer).unwrap();
    let tag: [u8; 4] = tag.into();
    assert_ne!(buffer.as_slice(), b"some payload");
    let plaintext = decrypt_buffer(&KEY, &nonce, b"aad", buffer.clone(), &tag).unwrap();
    assert_eq!(plaintext.as_slice(), b"some payload");
    assert!(decrypt_buffer(&KEY, &nonce, b"dad", buffer.clone(), &tag).is_none());
    assert!(decrypt_buffer(&KEY, &[0; 13], b"aad", buffer, &tag).is_none());
}

#[test]
fn receptions_are_counted() {
    let frame = hex(SECURED);
    let mut counters = RxCounters::new();
    assert!(matches!(counters.on_event(RadioEvent::TimedOut, &KEY), RxReport::Idle));
    assert_eq!(counters, RxCounters { ok: 0, err: 0 });
    match counters.on_event(RadioEvent::Received(&frame), &KEY) {
        RxReport::Frame { number, header, outcome } => {
            assert_eq!(number, 1);
            assert_eq!(header, parse_frame_header(&frame));
            assert!(matches!(outcome, Ok(FrameOutcome::Delivered { .. })));
        }
        _ => panic!(),
    }
    assert!(matches!(
        counters.on_event(RadioEvent::Failed, &KEY),
        RxReport::Failure { number: 1 }
    ));
    match counters.on_event(RadioEvent::Received(&frame[..2]), &KEY) {
        RxReport::Frame { number, header, outcome } => {
            assert_eq!(number, 2);
            assert!(header.is_none());
            assert!(matches!(outcome, Err(FrameError::Malformed)));
        }
        _ => panic!(),
    }
    assert_eq!(counters, RxCounters { ok: 2, err: 1 });
    assert_eq!(RX_POLL_MILLIS, 250);
}

#[test]
fn counts_wrap() {
    let mut counters = RxCounters { ok: u32::MAX, err: u32::MAX };
    counters.on_event(RadioEvent::Received(&[2, 0, 1]), &KEY);
    assert_eq!(counters, RxCounters { ok: 0, err: u32::MAX });
    counters.on_event(RadioEvent::Failed, &KEY);
    assert_eq!(counters, RxCounters { ok: 0, err: 0 });
}

#[test]
fn payload_is_what_header_and_code_leave() {
    for (text, header_len, code_len) in [(PLAIN, 15, 0), (SECURED, 21, 4)] {
        let frame = hex(text);
        match receive_frame(&frame, &KEY) {
            Ok(FrameOutcome::Delivered { payload, header }) => {
                assert_eq!(header_len + payload.len() + code_len, frame.len());
                assert!(header.is_some() && payload[0] >> 5 == 3);
            }
            _ => panic!(),
        }
    }
}

#[test]
fn received_frames_have_room_for_a_code() {
    assert_eq!(error(&[0x09, 0x00, 0x2a]), FrameError::Malformed);
    for level in 0..=255u8 {
        match receive_frame(&[0x09, 0x00, 0x2a, level], &KEY) {
            Err(e) => assert_ne!(e, FrameError::NoIntegrityCode),
            Ok(_) => {}
        }
        match receive_frame(&[0x09, 0x20, 0x2a, 0x20 | level], &KEY) {
            Err(e) => assert_ne!(e, FrameError::NoIntegrityCode),
            Ok(_) => {}
        }
    }
}
