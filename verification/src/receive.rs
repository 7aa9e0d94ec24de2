//! What becomes of a received frame.
//!
//! A data frame yields its payload: as it is if the frame is not secured, and
//! decrypted if it is secured at the one level that the node knows. From the
//! payload the compressed IPv6 header is read.

use vstd::prelude::*;

use crate::bytes::{le_bytes, lemma_bytes_determine, lemma_same_number, u32_le_bytes};
use crate::mac::{
    dst_addr, frame_counter, frame_counter_field, frame_dst_addr, frame_mac_header,
    frame_security_level, frame_src_addr, frame_summary, frame_type, frame_type_of, iphc_header,
    link_local_address, mac_header, message_integrity_code, parse_iphc, parse_summary, payload, security_bit_of,
    security_level, src_addr, well_formed, FrameSummary, IphcHeader, MacAddress, FRAME_TYPE_DATA,
};
use crate::payload::{
    aes128_ccm_open, buffer_bytes, buffer_from, buffer_slice, decrypt_buffer, PayloadBuffer,
    PAYLOAD_CAPACITY,
};

verus! {

/// The security level at which a frame is encrypted and carries an integrity
/// code of four octets.
pub const IEEE802154_SECURITY_LEVEL_ENC_MIC32: u8 = 5;

/// How long the integrity code of a frame is at that level.
pub const MIC_LEN: usize = 4;

/// Why a frame yields no payload.
#[derive(Clone, Copy, Debug, PartialEq, Eq)]
pub enum SkipReason {
    /// It is not a data frame.
    NotData,
    /// It has no payload.
    NoPayload,
    /// It is secured at a level that the node does not know.
    SecurityLevel(u8),
    /// It is secured and its source address has this many octets, of which a
    /// nonce needs eight.
    SourceLength(usize),
    /// Its payload does not fit a buffer.
    TooLong,
}

/// What is wrong with a frame that cannot be dealt with.
#[derive(Clone, Copy, Debug, PartialEq, Eq)]
pub enum FrameError {
    /// Its octets do not suffice for its header, or are more than a frame has.
    Malformed,
    /// It is secured without a frame counter.
    NoFrameCounter,
    /// It is secured without source addressing.
    NoSourceAddress,
    /// It is secured without an integrity code.
    NoIntegrityCode,
    /// It is secured and shorter than its integrity code.
    PayloadTooShort,
    /// Its integrity code is wrong.
    NotAuthentic,
}

/// The security fields of a frame.
pub struct SecurityFields<'a> {
    pub level: u8,
    pub frame_counter: Option<u32>,
    pub source: Option<MacAddress>,
    pub header: &'a [u8],
    pub mic: Option<[u8; 4]>,
}

/// What decides about a data frame.
pub struct DataFrame<'a> {
    pub payload: Option<&'a [u8]>,
    pub security: Option<SecurityFields<'a>>,
}

/// What is to be done with a data frame.
pub enum FrameAction<'a> {
    /// Nothing.
    Skip(SkipReason),
    /// Hand its payload on.
    Deliver(&'a [u8]),
    /// Decrypt its payload and hand that on.
    Decrypt { nonce: [u8; 13], aad: &'a [u8], ciphertext: &'a [u8], mic: [u8; 4] },
}

/// What a frame yields.
pub enum FrameOutcome {
    /// Nothing.
    Skipped(SkipReason),
    /// A payload, and the compressed IPv6 header in it if it starts with one.
    Delivered { payload: PayloadBuffer, header: Option<IphcHeader> },
}

/// Security fields as a value.
#[verifier::ext_equal]
pub ghost struct SecurityModel {
    pub level: u8,
    pub frame_counter: Option<u32>,
    pub source: Option<MacAddress>,
    pub header: Seq<u8>,
    pub mic: Option<Seq<u8>>,
}

/// A data frame as a value.
#[verifier::ext_equal]
pub ghost struct DataFrameModel {
    pub payload: Option<Seq<u8>>,
    pub security: Option<SecurityModel>,
}

/// An action as a value.
#[verifier::ext_equal]
pub ghost enum ActionModel {
    Skip(SkipReason),
    Deliver(Seq<u8>),
    Decrypt { nonce: Seq<u8>, aad: Seq<u8>, ciphertext: Seq<u8>, mic: Seq<u8> },
}

/// What a frame yields, as a value.
#[verifier::ext_equal]
pub ghost enum OutcomeModel {
    Skipped(SkipReason),
    Delivered { payload: Seq<u8>, header: Option<IphcHeader> },
}

impl<'a> View for SecurityFields<'a> {
    type V = SecurityModel;

    open spec fn view(&self) -> SecurityModel {
        SecurityModel {
            level: self.level,
            frame_counter: self.frame_counter,
            source: self.source,
            header: self.header@,
            mic: match self.mic {
                Some(mic) => Some(mic@),
                None => None,
            },
        }
    }
}

impl<'a> View for DataFrame<'a> {
    type V = DataFrameModel;

    open spec fn view(&self) -> DataFrameModel {
        DataFrameModel {
            payload: match self.payload {
                Some(p) => Some(p@),
                None => None,
            },
            security: match self.security {
                Some(s) => Some(s@),
                None => None,
            },
        }
    }
}

impl<'a> View for FrameAction<'a> {
    type V = ActionModel;

    open spec fn view(&self) -> ActionModel {
        match *self {
            FrameAction::Skip(reason) => ActionModel::Skip(reason),
            FrameAction::Deliver(payload) => ActionModel::Deliver(payload@),
            FrameAction::Decrypt { nonce, aad, ciphertext, mic } => ActionModel::Decrypt {
                nonce: nonce@,
                aad: aad@,
                ciphertext: ciphertext@,
                mic: mic@,
            },
        }
    }
}

impl View for FrameOutcome {
    type V = OutcomeModel;

    open spec fn view(&self) -> OutcomeModel {
        match *self {
            FrameOutcome::Skipped(reason) => OutcomeModel::Skipped(reason),
            FrameOutcome::Delivered { payload, header } => OutcomeModel::Delivered {
                payload: buffer_bytes(payload),
                header,
            },
        }
    }
}

/// How many octets an address has.
pub open spec fn address_len(address: MacAddress) -> usize {
    match address {
        MacAddress::Absent => 0,
        MacAddress::Short(_) => 2,
        MacAddress::Extended(_) => 8,
    }
}

/// The nonce of a secured frame: the extended address of its sender, its frame
/// counter and its security level.
pub open spec fn nonce_of(source: Seq<u8>, frame_counter: u32, level: u8) -> Seq<u8> {
    source + le_bytes(frame_counter) + seq![level]
}

/// What is to be done with a data frame.
pub open spec fn action_of(frame: DataFrameModel) -> Result<ActionModel, FrameError> {
    match (frame.payload, frame.security) {
        (None, _) => Ok(ActionModel::Skip(SkipReason::NoPayload)),
        (Some(payload), None) => Ok(ActionModel::Deliver(payload)),
        (Some(payload), Some(security)) => if security.level
            != IEEE802154_SECURITY_LEVEL_ENC_MIC32 {
            Ok(ActionModel::Skip(SkipReason::SecurityLevel(security.level)))
        } else {
            match (security.frame_counter, security.source, security.mic) {
                (None, _, _) => Err(FrameError::NoFrameCounter),
                (_, None, _) => Err(FrameError::NoSourceAddress),
                (Some(counter), Some(MacAddress::Extended(source)), Some(mic)) => if payload.len()
                    < mic.len() {
                    Err(FrameError::PayloadTooShort)
                } else {
                    Ok(
                        ActionModel::Decrypt {
                            nonce: nonce_of(source@, counter, security.level),
                            aad: security.header,
                            ciphertext: payload.take(payload.len() - mic.len()),
                            mic,
                        },
                    )
                },
                (_, Some(MacAddress::Extended(_)), None) => Err(FrameError::NoIntegrityCode),
                (_, Some(address), _) => Ok(
                    ActionModel::Skip(SkipReason::SourceLength(address_len(address))),
                ),
            }
        },
    }
}

/// The integrity code of a frame at the level that the node knows.
pub open spec fn mic_of(frame: Seq<u8>) -> Option<Seq<u8>> {
    if frame_security_level(frame) == IEEE802154_SECURITY_LEVEL_ENC_MIC32 && frame.len()
        >= MIC_LEN {
        Some(frame.skip(frame.len() - MIC_LEN))
    } else {
        None
    }
}

/// What decides about the data frame with the octets `frame`.
pub open spec fn data_frame_of(frame: Seq<u8>) -> DataFrameModel {
    DataFrameModel {
        payload: Some(frame.skip(frame_mac_header(frame).len() as int)),
        security: if security_bit_of(frame) {
            Some(
                SecurityModel {
                    level: frame_security_level(frame),
                    frame_counter: frame_counter_field(frame),
                    source: frame_src_addr(frame),
                    header: frame_mac_header(frame),
                    mic: mic_of(frame),
                },
            )
        } else {
            None
        },
    }
}

/// The payload that an action yields under the network key `key`, or the
/// reason why it yields none.
pub open spec fn payload_of(action: ActionModel, key: Seq<u8>) -> Result<
    Result<Seq<u8>, SkipReason>,
    FrameError,
> {
    match action {
        ActionModel::Skip(reason) => Ok(Err(reason)),
        ActionModel::Deliver(payload) => if payload.len() <= PAYLOAD_CAPACITY {
            Ok(Ok(payload))
        } else {
            Ok(Err(SkipReason::TooLong))
        },
        ActionModel::Decrypt { nonce, aad, ciphertext, mic } => if ciphertext.len()
            <= PAYLOAD_CAPACITY {
            match aes128_ccm_open(key, nonce, aad, ciphertext, mic) {
                Some(plaintext) => Ok(Ok(plaintext)),
                None => Err(FrameError::NotAuthentic),
            }
        } else {
            Ok(Err(SkipReason::TooLong))
        },
    }
}

/// The compressed IPv6 header in the payload of a frame.
pub open spec fn header_of(frame: Seq<u8>, payload: Seq<u8>) -> Option<IphcHeader> {
    iphc_header(payload, frame_src_addr(frame), frame_dst_addr(frame))
}

/// What the octets `frame` yield under the network key `key`.
pub open spec fn outcome_of(frame: Seq<u8>, key: Seq<u8>) -> Result<OutcomeModel, FrameError> {
    if frame.len() < 2 {
        Err(FrameError::Malformed)
    } else if frame_type_of(frame) != FRAME_TYPE_DATA {
        Ok(OutcomeModel::Skipped(SkipReason::NotData))
    } else if !well_formed(frame) {
        Err(FrameError::Malformed)
    } else {
        match action_of(data_frame_of(frame)) {
            Err(e) => Err(e),
            Ok(action) => match payload_of(action, key) {
                Err(e) => Err(e),
                Ok(Err(reason)) => Ok(OutcomeModel::Skipped(reason)),
                Ok(Ok(payload)) => Ok(
                    OutcomeModel::Delivered { payload, header: header_of(frame, payload) },
                ),
            },
        }
    }
}

/// What is known of the outcome of a received frame beyond what it is. A
/// payload is what the header, and the integrity code of a secured frame,
/// leave of the frame, and it holds an IPv6 header only where its first three
/// bits say so. A level has three bits. A received data frame has a payload,
/// which fits a buffer, and a secured one is long enough for its integrity
/// code.
pub open spec fn outcome_fits(frame: Seq<u8>, outcome: Result<OutcomeModel, FrameError>) -> bool {
    match outcome {
        Ok(OutcomeModel::Delivered { payload, header }) => {
            &&& frame_mac_header(frame).len() + payload.len() + (if security_bit_of(frame) {
                MIC_LEN
            } else {
                0
            }) == frame.len()
            &&& payload.len() <= PAYLOAD_CAPACITY
            &&& header is Some ==> payload.len() >= 2 && payload[0] >> 5 == 3
        },
        Ok(OutcomeModel::Skipped(SkipReason::SecurityLevel(level))) => level < 8,
        Ok(OutcomeModel::Skipped(reason)) => reason !is NoPayload && reason !is TooLong,
        Err(e) => e !is NoIntegrityCode,
    }
}

/// The value of a result whose success has a view.
pub open spec fn view_ok<T: View, E>(result: Result<T, E>) -> Result<T::V, E> {
    match result {
        Ok(value) => Ok(value@),
        Err(e) => Err(e),
    }
}

/// Builds the nonce of a secured frame.
pub fn ccm_nonce(source: &[u8; 8], frame_counter: u32, level: u8) -> (nonce: [u8; 13])
    ensures
        nonce@ == nonce_of(source@, frame_counter, level),
        nonce@.take(8) == source@,
        nonce[8] + nonce[9] * 0x100 + nonce[10] * 0x1_0000 + nonce[11] * 0x100_0000 == frame_counter,
        nonce[12] == level,
{
    let counter = u32_le_bytes(frame_counter);
    let nonce = [
        source[0],
        source[1],
        source[2],
        source[3],
        source[4],
        source[5],
        source[6],
        source[7],
        counter[0],
        counter[1],
        counter[2],
        counter[3],
        level,
    ];
    assert(nonce@ =~= nonce_of(source@, frame_counter, level));
    proof {
        law_nonce_layout(source@, frame_counter, level);
    }
    nonce
}

/// Decides what is to be done with a data frame.
pub fn decide<'a>(frame: &DataFrame<'a>) -> (action: Result<FrameAction<'a>, FrameError>)
    ensures
        view_ok(action) == action_of(frame@),
        match (frame.payload, frame.security) {
            (None, _) => action matches Ok(FrameAction::Skip(SkipReason::NoPayload)),
            (Some(p), None) => action matches Ok(FrameAction::Deliver(q)) && q@ == p@,
            (Some(p), Some(s)) => if s.level != 5 {
                action matches Ok(FrameAction::Skip(SkipReason::SecurityLevel(l))) && l == s.level
            } else {
                match (s.frame_counter, s.source, s.mic) {
                    (Some(c), Some(MacAddress::Extended(a)), Some(m)) => if p@.len() < 4 {
                        action matches Err(FrameError::PayloadTooShort)
                    } else {
                        &&& action matches Ok(FrameAction::Decrypt { nonce, aad, ciphertext, mic })
                        &&& nonce@ == nonce_of(a@, c, 5)
                        &&& aad@ == s.header@
                        &&& ciphertext@ == p@.take(p@.len() - 4)
                        &&& mic@ == m@
                    },
                    (None, _, _) => action matches Err(FrameError::NoFrameCounter),
                    (_, None, _) => action matches Err(FrameError::NoSourceAddress),
                    (_, Some(MacAddress::Absent), _) => action matches Ok(
                        FrameAction::Skip(SkipReason::SourceLength(n)),
                    ) && n == 0,
                    (_, Some(MacAddress::Short(_)), _) => action matches Ok(
                        FrameAction::Skip(SkipReason::SourceLength(n)),
                    ) && n == 2,
                    (_, Some(MacAddress::Extended(_)), None) => action matches Err(
                        FrameError::NoIntegrityCode,
                    ),
                }
            },
        },
{
    let payload = match frame.payload {
        Some(payload) => payload,
        None => return Ok(FrameAction::Skip(SkipReason::NoPayload)),
    };
    let security = match &frame.security {
        Some(security) => security,
        None => return Ok(FrameAction::Deliver(payload)),
    };
    if security.level != IEEE802154_SECURITY_LEVEL_ENC_MIC32 {
        return Ok(FrameAction::Skip(SkipReason::SecurityLevel(security.level)));
    }
    let counter = match security.frame_counter {
        Some(counter) => counter,
        None => return Err(FrameError::NoFrameCounter),
    };
    let source = match security.source {
        Some(MacAddress::Extended(source)) => source,
        Some(MacAddress::Short(_)) => return Ok(FrameAction::Skip(SkipReason::SourceLength(2))),
        Some(MacAddress::Absent) => return Ok(FrameAction::Skip(SkipReason::SourceLength(0))),
        None => return Err(FrameError::NoSourceAddress),
    };
    let mic = match security.mic {
        Some(mic) => mic,
        None => return Err(FrameError::NoIntegrityCode),
    };
    if payload.len() < MIC_LEN {
        return Err(FrameError::PayloadTooShort);
    }
    let ciphertext = &payload[0..payload.len() - MIC_LEN];
    assert(ciphertext@ =~= payload@.take(payload@.len() - mic@.len()));
    Ok(
        FrameAction::Decrypt {
            nonce: ccm_nonce(&source, counter, security.level),
            aad: security.header,
            ciphertext,
            mic,
        },
    )
}

/// Carries an action out.
pub fn carry_out(action: FrameAction<'_>, key: &[u8; 16]) -> (payload: Result<
    Result<PayloadBuffer, SkipReason>,
    FrameError,
>)
    ensures
        match payload {
            Ok(Ok(buffer)) => payload_of(action@, key@) == Ok::<_, FrameError>(
                Ok::<_, SkipReason>(buffer_bytes(buffer)),
            ),
            Ok(Err(reason)) => payload_of(action@, key@) == Ok::<Result<Seq<u8>, _>, FrameError>(
                Err(reason),
            ),
            Err(e) => payload_of(action@, key@) == Err::<Result<Seq<u8>, SkipReason>, _>(e),
        },
        payload matches Ok(Ok(buffer)) ==> {
            &&& buffer_bytes(buffer).len() <= PAYLOAD_CAPACITY
            &&& action@ matches ActionModel::Decrypt { ciphertext, .. } ==> buffer_bytes(
                buffer,
            ).len() == ciphertext.len()
        },
        match action {
            FrameAction::Skip(reason) => payload matches Ok(Err(r)) && r == reason,
            FrameAction::Deliver(data) => if data@.len() <= 127 {
                payload matches Ok(Ok(buffer)) && buffer_bytes(buffer) == data@
            } else {
                payload matches Ok(Err(SkipReason::TooLong))
            },
            FrameAction::Decrypt { nonce, aad, ciphertext, mic } => if ciphertext@.len() <= 127 {
                match aes128_ccm_open(key@, nonce@, aad@, ciphertext@, mic@) {
                    Some(plaintext) => payload matches Ok(Ok(buffer)) && buffer_bytes(buffer)
                        == plaintext,
                    None => payload matches Err(FrameError::NotAuthentic),
                }
            } else {
                payload matches Ok(Err(SkipReason::TooLong))
            },
        },
{
    match action {
        FrameAction::Skip(reason) => Ok(Err(reason)),
        FrameAction::Deliver(payload) => match buffer_from(payload) {
            Some(buffer) => Ok(Ok(buffer)),
            None => Ok(Err(SkipReason::TooLong)),
        },
        FrameAction::Decrypt { nonce, aad, ciphertext, mic } => {
            let buffer = match buffer_from(ciphertext) {
                Some(buffer) => buffer,
                None => return Ok(Err(SkipReason::TooLong)),
            };
            match decrypt_buffer(key, &nonce, aad, buffer, &mic) {
                Some(plaintext) => Ok(Ok(plaintext)),
                None => Err(FrameError::NotAuthentic),
            }
        },
    }
}

/// Reads what decides about a data frame.
fn read_data_frame<'a>(frame: &'a [u8], summary: &FrameSummary) -> (fields: DataFrame<'a>)
    requires
        frame_summary(frame@) == Some(*summary),
        summary.security_enabled == security_bit_of(frame@),
        frame_type_of(frame@) == FRAME_TYPE_DATA,
    ensures
        fields@ == data_frame_of(frame@),
        frame_mac_header(frame@).len() <= frame@.len(),
        frame_mac_header(frame@) == frame@.take(frame_mac_header(frame@).len() as int),
        security_bit_of(frame@) ==> frame_security_level(frame@) < 8,
{
    let header = mac_header(frame);
    let payload = payload(frame);
    assert(payload.unwrap()@ =~= frame@.skip(frame_mac_header(frame@).len() as int));
    let security = if summary.security_enabled {
        let level = security_level(frame);
        let mic = if level == IEEE802154_SECURITY_LEVEL_ENC_MIC32 && frame.len() >= MIC_LEN {
            message_integrity_code(frame)
        } else {
            None
        };
        Some(
            SecurityFields {
                level,
                frame_counter: frame_counter(frame),
                source: src_addr(frame),
                header,
                mic,
            },
        )
    } else {
        None
    };
    DataFrame { payload, security }
}

/// Deals with a received frame under the network key `key`.
pub fn receive_frame(frame: &[u8], key: &[u8; 16]) -> (outcome: Result<FrameOutcome, FrameError>)
    ensures
        view_ok(outcome) == outcome_of(frame@, key@),
        match outcome {
            Ok(FrameOutcome::Delivered { payload, header }) => outcome_of(frame@, key@) == Ok::<
                _,
                FrameError,
            >(OutcomeModel::Delivered { payload: buffer_bytes(payload), header }),
            Ok(FrameOutcome::Skipped(reason)) => outcome_of(frame@, key@) == Ok::<_, FrameError>(
                OutcomeModel::Skipped(reason),
            ),
            Err(e) => outcome_of(frame@, key@) == Err::<OutcomeModel, _>(e),
        },
        outcome_fits(frame@, view_ok(outcome)),
        outcome matches Ok(FrameOutcome::Delivered { payload, header }) ==> header == iphc_header(
            buffer_bytes(payload),
            frame_src_addr(frame@),
            frame_dst_addr(frame@),
        ),
        outcome matches Ok(FrameOutcome::Delivered { payload, header: Some(h) }) ==> {
            let octet = buffer_bytes(payload)[1];
            &&& octet & 0x70 == 0x30 ==> link_local_address(frame_src_addr(frame@)) == Some(
                h.src_addr@,
            )
            &&& octet & 0x0f == 0x03 ==> link_local_address(frame_dst_addr(frame@)) == Some(
                h.dst_addr@,
            )
        },
        frame@.len() >= 2 && frame@[0] & 0x07 == 1 && frame_summary(frame@) is Some && frame@[0]
            & 0x08 == 0 ==> (outcome matches Ok(FrameOutcome::Delivered { payload, .. })
            && frame_mac_header(frame@) + buffer_bytes(payload) == frame@),
        match (frame_counter_field(frame@), frame_src_addr(frame@)) {
            (Some(c), Some(MacAddress::Extended(a))) => frame@.len() >= 2 && frame@[0] & 0x07 == 1
                && frame_summary(frame@) is Some && frame@[0] & 0x08 != 0 && frame_security_level(
                frame@,
            ) == 5 && frame_mac_header(frame@).len() + 4 <= frame@.len()
                ==> match aes128_ccm_open(
                key@,
                nonce_of(a@, c, 5),
                frame_mac_header(frame@),
                frame@.subrange(frame_mac_header(frame@).len() as int, frame@.len() - 4),
                frame@.skip(frame@.len() - 4),
            ) {
                Some(plaintext) => outcome matches Ok(FrameOutcome::Delivered { payload, .. })
                    && buffer_bytes(payload) == plaintext,
                None => outcome matches Err(FrameError::NotAuthentic),
            },
            _ => true,
        },
{
    if frame.len() < 2 {
        return Err(FrameError::Malformed);
    }
    if frame_type(frame) != FRAME_TYPE_DATA {
        return Ok(FrameOutcome::Skipped(SkipReason::NotData));
    }
    let summary = match parse_summary(frame) {
        Some(summary) => summary,
        None => return Err(FrameError::Malformed),
    };
    let fields = read_data_frame(frame, &summary);
    proof {
        let start = frame_mac_header(frame@).len() as int;
        let body = frame@.skip(start);
        assert(frame_mac_header(frame@) + body =~= frame@);
        if body.len() >= 4 {
            assert(body.take(body.len() - 4) =~= frame@.subrange(start, frame@.len() - 4));
        }
    }
    let action = match decide(&fields) {
        Ok(action) => action,
        Err(e) => return Err(e),
    };
    match carry_out(action, key) {
        Ok(Ok(payload)) => {
            let header = parse_iphc(buffer_slice(&payload), src_addr(frame), dst_addr(frame));
            Ok(FrameOutcome::Delivered { payload, header })
        },
        Ok(Err(reason)) => Ok(FrameOutcome::Skipped(reason)),
        Err(e) => Err(e),
    }
}

/// A nonce is thirteen octets: the extended address of the sender, the frame
/// counter with its lowest octet first, and the security level.
pub proof fn law_nonce_layout(source: Seq<u8>, counter: u32, level: u8)
    requires
        source.len() == 8,
    ensures
        ({
            let n = nonce_of(source, counter, level);
            &&& n.len() == 13
            &&& n.take(8) == source
            &&& n[8] + n[9] * 0x100 + n[10] * 0x1_0000 + n[11] * 0x100_0000 == counter
            &&& n[12] == level
        }),
{
    lemma_bytes_determine(counter);
    let n = nonce_of(source, counter, level);
    assert(n.take(8) =~= source);
    assert(n[8] == le_bytes(counter)[0] && n[9] == le_bytes(counter)[1]);
    assert(n[10] == le_bytes(counter)[2] && n[11] == le_bytes(counter)[3]);
}

/// Thirteen octets that are laid out as a nonce are that nonce.
proof fn lemma_nonce(nonce: Seq<u8>, source: Seq<u8>, counter: u32, level: u8)
    requires
        source.len() == 8,
        nonce.len() == 13,
        nonce.take(8) == source,
        nonce[8] + nonce[9] * 0x100 + nonce[10] * 0x1_0000 + nonce[11] * 0x100_0000 == counter,
        nonce[12] == level,
    ensures
        nonce == nonce_of(source, counter, level),
{
    law_nonce_layout(source, counter, level);
    let n = nonce_of(source, counter, level);
    lemma_same_number(nonce[11], nonce[10], nonce[9], nonce[8], n[11], n[10], n[9], n[8]);
    assert forall|i: int| 0 <= i < 13 implies nonce[i] == n[i] by {
        if i < 8 {
            assert(nonce.take(8)[i] == n.take(8)[i]);
        }
    }
    assert(nonce =~= n);
}

/// What is decided of a data frame that is not decrypted: without a payload it
/// is skipped, without security it is handed on whole, at another level or
/// without an extended source it is skipped with the reason, and it is refused
/// if a security field or a part of the integrity code is missing.
pub proof fn law_decisions_without_decryption(frame: DataFrameModel)
    ensures
        frame.payload is None ==> action_of(frame) == Ok::<_, FrameError>(
            ActionModel::Skip(SkipReason::NoPayload),
        ),
        frame.payload matches Some(p) ==> frame.security is None ==> action_of(frame) == Ok::<
            _,
            FrameError,
        >(ActionModel::Deliver(p)),
        frame.security matches Some(s) ==> frame.payload is Some ==> {
            &&& s.level != 5 ==> action_of(frame) == Ok::<_, FrameError>(
                ActionModel::Skip(SkipReason::SecurityLevel(s.level)),
            )
            &&& s.level == 5 && s.frame_counter is None ==> action_of(frame) == Err::<
                ActionModel,
                _,
            >(FrameError::NoFrameCounter)
            &&& s.level == 5 && s.frame_counter is Some && s.source is None ==> action_of(frame)
                == Err::<ActionModel, _>(FrameError::NoSourceAddress)
            &&& s.level == 5 && s.frame_counter is Some && s.source == Some(MacAddress::Absent)
                ==> action_of(frame) == Ok::<_, FrameError>(
                ActionModel::Skip(SkipReason::SourceLength(0)),
            )
            &&& s.level == 5 && s.frame_counter is Some && (s.source matches Some(
                MacAddress::Short(_),
            )) ==> action_of(frame) == Ok::<_, FrameError>(
                ActionModel::Skip(SkipReason::SourceLength(2)),
            )
            &&& s.level == 5 && s.frame_counter is Some && (s.source matches Some(
                MacAddress::Extended(_),
            )) && s.mic is None ==> action_of(frame) == Err::<ActionModel, _>(
                FrameError::NoIntegrityCode,
            )
            &&& s.level == 5 && s.frame_counter is Some && (s.source matches Some(
                MacAddress::Extended(_),
            )) && s.mic is Some && frame.payload.unwrap().len() < s.mic.unwrap().len()
                ==> action_of(frame) == Err::<ActionModel, _>(FrameError::PayloadTooShort)
        },
{
}

/// A data frame that is secured at the one known level by an extended source is
/// decrypted, however long it is: what is decrypted and the integrity code are,
/// in length, the whole payload, of which it is the front part; the header is
/// authenticated with it; and the nonce is laid out of the frame's own fields.
pub proof fn law_sealed_payload_is_decrypted(
    frame: DataFrameModel,
    security: SecurityModel,
    payload: Seq<u8>,
    counter: u32,
    source: [u8; 8],
    nonce: Seq<u8>,
    ciphertext: Seq<u8>,
    mic: Seq<u8>,
)
    requires
        frame.payload == Some(payload),
        frame.security == Some(security),
        security.level == 5,
        security.frame_counter == Some(counter),
        security.source == Some(MacAddress::Extended(source)),
        security.mic == Some(mic),
        ciphertext.len() + mic.len() == payload.len(),
        ciphertext.is_prefix_of(payload),
        nonce.len() == 13,
        nonce.take(8) == source@,
        nonce[8] + nonce[9] * 0x100 + nonce[10] * 0x1_0000 + nonce[11] * 0x100_0000 == counter,
        nonce[12] == 5,
    ensures
        action_of(frame) == Ok::<_, FrameError>(
            ActionModel::Decrypt { nonce, aad: security.header, ciphertext, mic },
        ),
{
    lemma_nonce(nonce, source@, counter, 5);
    assert(ciphertext =~= payload.take(payload.len() - mic.len()));
}

/// What actions yield: a payload that is handed on is unchanged, one that is
/// decrypted is the plaintext if its integrity code is right and refused if
/// not, and only what a buffer cannot hold is too long.
pub proof fn law_actions_yield_payloads(action: ActionModel, key: Seq<u8>)
    ensures
        action matches ActionModel::Skip(reason) ==> payload_of(action, key) == Ok::<
            Result<Seq<u8>, _>,
            FrameError,
        >(Err(reason)),
        action matches ActionModel::Deliver(payload) ==> payload_of(action, key)
            == if payload.len() <= 127 {
            Ok::<Result<_, SkipReason>, FrameError>(Ok(payload))
        } else {
            Ok(Err(SkipReason::TooLong))
        },
        action matches ActionModel::Decrypt { nonce, aad, ciphertext, mic } ==> payload_of(
            action,
            key,
        ) == if ciphertext.len() > 127 {
            Ok::<Result<Seq<u8>, SkipReason>, FrameError>(Err(SkipReason::TooLong))
        } else {
            match aes128_ccm_open(key, nonce, aad, ciphertext, mic) {
                Some(plaintext) => Ok(Ok(plaintext)),
                None => Err(FrameError::NotAuthentic),
            }
        },
{
}

/// A frame without two octets, and a data frame without a whole header, is
/// malformed. A frame of another type is skipped, whatever else it holds.
pub proof fn law_frames_without_data(frame: Seq<u8>, key: Seq<u8>)
    ensures
        frame.len() < 2 ==> outcome_of(frame, key) == Err::<OutcomeModel, _>(FrameError::Malformed),
        frame.len() >= 2 && frame[0] & 0x07 != 1 ==> outcome_of(frame, key) == Ok::<_, FrameError>(
            OutcomeModel::Skipped(SkipReason::NotData),
        ),
        frame.len() >= 2 && frame[0] & 0x07 == 1 && frame_summary(frame) is None ==> outcome_of(
            frame,
            key,
        ) == Err::<OutcomeModel, _>(FrameError::Malformed),
{
}

/// A secured data frame whose security the node cannot deal with is not opened:
/// it is skipped with its level or with the length of its source address, or
/// refused for the field that it lacks.
pub proof fn law_unusable_security(frame: Seq<u8>, key: Seq<u8>)
    requires
        frame.len() >= 4,
        frame[0] & 0x07 == 1,
        frame[0] & 0x08 != 0,
        frame_summary(frame) is Some,
    ensures
        ({
            let outcome = outcome_of(frame, key);
            let known = frame_security_level(frame) == 5;
            let counted = frame_counter_field(frame) is Some;
            &&& !known ==> outcome == Ok::<_, FrameError>(
                OutcomeModel::Skipped(SkipReason::SecurityLevel(frame_security_level(frame))),
            )
            &&& known && !counted ==> outcome == Err::<OutcomeModel, _>(FrameError::NoFrameCounter)
            &&& known && counted && frame_src_addr(frame) is None ==> outcome == Err::<
                OutcomeModel,
                _,
            >(FrameError::NoSourceAddress)
            &&& known && counted && frame_src_addr(frame) == Some(MacAddress::Absent) ==> outcome
                == Ok::<_, FrameError>(OutcomeModel::Skipped(SkipReason::SourceLength(0)))
            &&& known && counted && (frame_src_addr(frame) matches Some(MacAddress::Short(_)))
                ==> outcome == Ok::<_, FrameError>(
                OutcomeModel::Skipped(SkipReason::SourceLength(2)),
            )
            &&& known && counted && (frame_src_addr(frame) matches Some(MacAddress::Extended(_)))
                && frame.skip(frame_mac_header(frame).len() as int).len() < 4 ==> outcome == Err::<
                OutcomeModel,
                _,
            >(FrameError::PayloadTooShort)
        }),
{
}

/// An authentic frame is delivered, and any other is refused: what a secured
/// data frame holds between its header and the four octets that end it is
/// opened under the network key, with the header as associated data and with a
/// nonce laid out of the frame's own fields. The plaintext is delivered whole,
/// as long as a buffer can hold it, with its IPv6 header.
pub proof fn law_authentic_frame_is_delivered(
    frame: Seq<u8>,
    key: Seq<u8>,
    counter: u32,
    source: [u8; 8],
    nonce: Seq<u8>,
    ciphertext: Seq<u8>,
    mic: Seq<u8>,
)
    requires
        frame[0] & 0x07 == 1,
        frame[0] & 0x08 != 0,
        frame_summary(frame) is Some,
        frame_security_level(frame) == 5,
        frame_counter_field(frame) == Some(counter),
        frame_src_addr(frame) == Some(MacAddress::Extended(source)),
        frame == frame_mac_header(frame) + ciphertext + mic,
        mic.len() == 4,
        ciphertext.len() <= 127,
        nonce.len() == 13,
        nonce.take(8) == source@,
        nonce[8] + nonce[9] * 0x100 + nonce[10] * 0x1_0000 + nonce[11] * 0x100_0000 == counter,
        nonce[12] == 5,
    ensures
        outcome_of(frame, key) == match aes128_ccm_open(
            key,
            nonce,
            frame_mac_header(frame),
            ciphertext,
            mic,
        ) {
            Some(plaintext) => Ok::<_, FrameError>(
                OutcomeModel::Delivered {
                    payload: plaintext,
                    header: iphc_header(plaintext, frame_src_addr(frame), frame_dst_addr(frame)),
                },
            ),
            None => Err(FrameError::NotAuthentic),
        },
{
    lemma_nonce(nonce, source@, counter, 5);
    let body = frame.skip(frame_mac_header(frame).len() as int);
    assert(body =~= ciphertext + mic);
    assert(frame.skip(frame.len() - 4) =~= mic);
    assert(body.take(body.len() - 4) =~= ciphertext);
}

/// The IPv6 header of a payload, plain or decrypted, is read with the source
/// address of its frame as the source and the destination address of its frame
/// as the destination.
pub proof fn law_header_is_read_with_frame_addresses(frame: Seq<u8>, key: Seq<u8>)
    ensures
        outcome_of(frame, key) matches Ok(OutcomeModel::Delivered { payload, header }) ==> header
            == iphc_header(payload, frame_src_addr(frame), frame_dst_addr(frame)),
{
}

/// A nonce tells the address, the frame counter and the security level that it
/// was made of: two frames share one only if they agree in all three.
pub proof fn law_nonces_are_unique(
    source_a: Seq<u8>,
    counter_a: u32,
    level_a: u8,
    source_b: Seq<u8>,
    counter_b: u32,
    level_b: u8,
)
    requires
        source_a.len() == 8,
        source_b.len() == 8,
        nonce_of(source_a, counter_a, level_a) == nonce_of(source_b, counter_b, level_b),
    ensures
        source_a == source_b,
        counter_a == counter_b,
        level_a == level_b,
{
    let a = nonce_of(source_a, counter_a, level_a);
    let b = nonce_of(source_b, counter_b, level_b);
    assert(source_a =~= a.take(8) && source_b =~= b.take(8));
    assert(le_bytes(counter_a) =~= a.subrange(8, 12) && le_bytes(counter_b) =~= b.subrange(8, 12));
    assert(a[12] == level_a && b[12] == level_b);
    lemma_bytes_determine(counter_a);
    lemma_bytes_determine(counter_b);
}

/// Only data frames yield a payload.
pub proof fn law_only_data_is_delivered(frame: Seq<u8>, key: Seq<u8>)
    requires
        outcome_of(frame, key) matches Ok(outcome) && outcome is Delivered,
    ensures
        frame_type_of(frame) == FRAME_TYPE_DATA,
        well_formed(frame),
{
}

/// What a frame without security yields is what follows its header, and does
/// not depend on the key.
pub proof fn law_plain_payload_is_delivered(frame: Seq<u8>, key: Seq<u8>)
    requires
        frame.len() >= 2,
        frame[0] & 0x07 == 1,
        frame_summary(frame) is Some,
        frame[0] & 0x08 == 0,
        frame.skip(frame_mac_header(frame).len() as int).len() <= 127,
    ensures
        ({
            let payload = frame.skip(frame_mac_header(frame).len() as int);
            outcome_of(frame, key) == Ok::<_, FrameError>(
                OutcomeModel::Delivered {
                    payload,
                    header: iphc_header(payload, frame_src_addr(frame), frame_dst_addr(frame)),
                },
            )
        }),
{
}

/// What a secured frame yields has been authenticated: it is the plaintext of
/// the frame's payload under the network key, with a nonce made of the sender's
/// extended address and the frame counter, and the integrity code that ends
/// the frame covers the header, too.
pub proof fn law_secured_payload_is_authentic(frame: Seq<u8>, key: Seq<u8>, payload: Seq<u8>)
    requires
        security_bit_of(frame),
        outcome_of(frame, key) matches Ok(OutcomeModel::Delivered { payload: p, .. }) && p
            == payload,
    ensures
        frame_security_level(frame) == IEEE802154_SECURITY_LEVEL_ENC_MIC32,
        frame_counter_field(frame) is Some,
        frame_src_addr(frame) matches Some(MacAddress::Extended(source)) && {
            let body = frame.skip(frame_mac_header(frame).len() as int);
            aes128_ccm_open(
                key,
                nonce_of(
                    source@,
                    frame_counter_field(frame).unwrap(),
                    IEEE802154_SECURITY_LEVEL_ENC_MIC32,
                ),
                frame_mac_header(frame),
                body.take(body.len() - MIC_LEN),
                frame.skip(frame.len() - MIC_LEN),
            ) == Some(payload)
        },
{
}

/// A frame that is encrypted but does not carry the right integrity code is
/// refused.
pub proof fn law_forged_frame_is_refused(
    frame: Seq<u8>,
    key: Seq<u8>,
    nonce: Seq<u8>,
    aad: Seq<u8>,
    ciphertext: Seq<u8>,
    mic: Seq<u8>,
)
    requires
        frame.len() >= 2,
        frame_type_of(frame) == FRAME_TYPE_DATA,
        well_formed(frame),
        action_of(data_frame_of(frame)) == Ok::<_, FrameError>(
            ActionModel::Decrypt { nonce, aad, ciphertext, mic },
        ),
        ciphertext.len() <= PAYLOAD_CAPACITY,
        aes128_ccm_open(key, nonce, aad, ciphertext, mic) is None,
    ensures
        outcome_of(frame, key) == Err::<OutcomeModel, _>(FrameError::NotAuthentic),
{
}

} // verus!
