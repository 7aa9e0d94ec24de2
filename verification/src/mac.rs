//! IEEE 802.15.4 frames and the 6LoWPAN header they carry, as `smoltcp` reads
//! them.
//!
//! Everything here is about the octets of one received frame. What takes a
//! page to describe is given a name; what is short is described.

use vstd::prelude::*;

use smoltcp::wire::{
    Ieee802154Address, Ieee802154Frame, Ieee802154Repr, SixlowpanIphcPacket, SixlowpanIphcRepr,
    SixlowpanNextHeader,
};

verus! {

/// The frame type of a data frame.
pub const FRAME_TYPE_DATA: u8 = 1;

/// The longest frame.
pub const MAX_FRAME_LEN: usize = 127;

/// A link-layer address.
#[derive(Clone, Copy, Debug, PartialEq, Eq)]
pub enum MacAddress {
    Absent,
    Short([u8; 2]),
    Extended([u8; 8]),
}

/// The fixed fields of a frame header.
#[derive(Clone, Copy, Debug, PartialEq, Eq)]
pub struct FrameSummary {
    pub frame_type: u8,
    pub security_enabled: bool,
    pub frame_pending: bool,
    pub ack_request: bool,
    pub sequence_number: Option<u8>,
    pub pan_id_compression: bool,
    pub frame_version: u8,
    pub dst_pan_id: Option<u16>,
    pub src_pan_id: Option<u16>,
}

/// The header of a frame.
#[derive(Clone, Copy, Debug, PartialEq, Eq)]
pub struct FrameHeader {
    pub summary: FrameSummary,
    pub dst_addr: Option<MacAddress>,
    pub src_addr: Option<MacAddress>,
}

/// A compressed IPv6 header, decompressed. Without a `next_header` that field
/// is compressed, too.
#[derive(Clone, Copy, Debug, PartialEq, Eq)]
pub struct IphcHeader {
    pub src_addr: [u8; 16],
    pub dst_addr: [u8; 16],
    pub next_header: Option<u8>,
    pub hop_limit: u8,
    pub ecn: Option<u8>,
    pub dscp: Option<u8>,
    pub flow_label: Option<u16>,
}

/// The type field of a frame.
pub open spec fn frame_type_of(frame: Seq<u8>) -> u8 {
    frame[0] & 0x07
}

/// The security bit of a frame.
pub open spec fn security_bit_of(frame: Seq<u8>) -> bool {
    frame[0] & 0x08 != 0
}

/// The fixed header fields of a frame, if its octets suffice for its header.
pub uninterp spec fn frame_summary(frame: Seq<u8>) -> Option<FrameSummary>;

/// The source address of a frame.
pub uninterp spec fn frame_src_addr(frame: Seq<u8>) -> Option<MacAddress>;

/// The destination address of a frame.
pub uninterp spec fn frame_dst_addr(frame: Seq<u8>) -> Option<MacAddress>;

/// The octets of a frame before its payload.
pub uninterp spec fn frame_mac_header(frame: Seq<u8>) -> Seq<u8>;

/// The security level of a secured frame.
pub uninterp spec fn frame_security_level(frame: Seq<u8>) -> u8;

/// The frame counter of a secured frame, unless it is suppressed.
pub uninterp spec fn frame_counter_field(frame: Seq<u8>) -> Option<u32>;

/// The IPv6 header compressed at the start of `payload`, with what it leaves
/// out of its addresses taken from the link-layer addresses `src` and `dst`.
pub uninterp spec fn iphc_header(
    payload: Seq<u8>,
    src: Option<MacAddress>,
    dst: Option<MacAddress>,
) -> Option<IphcHeader>;

/// The frame has a whole header.
pub open spec fn well_formed(frame: Seq<u8>) -> bool {
    frame_summary(frame) is Some
}

/// The frame has a whole header, with security fields in it.
pub open spec fn secured(frame: Seq<u8>) -> bool {
    well_formed(frame) && security_bit_of(frame)
}

/// The IPv6 address that is made of a link-layer address: the link-local prefix
/// and the interface identifier of the link-layer address.
pub open spec fn link_local_address(address: Option<MacAddress>) -> Option<Seq<u8>> {
    match address {
        Some(MacAddress::Short(a)) => Some(
            seq![0xfeu8, 0x80, 0, 0, 0, 0, 0, 0, 0, 0, 0, 0xff, 0xfe, 0, a[0], a[1]],
        ),
        Some(MacAddress::Extended(a)) => Some(
            seq![0xfeu8, 0x80, 0, 0, 0, 0, 0, 0, a[0] ^ 0x02, a[1], a[2], a[3], a[4], a[5], a[6], a[7]],
        ),
        _ => None,
    }
}

/// A link-local address has the prefix `fe80::/64` and ends with the short
/// address that it is made of, or with the extended one with its universal bit
/// flipped. Only an address that is there makes one.
pub proof fn law_link_local_address_tells_its_owner(address: Option<MacAddress>)
    ensures
        link_local_address(address) is Some <==> (address matches Some(a) && a !is Absent),
        link_local_address(address) matches Some(ip) ==> {
            &&& ip.len() == 16
            &&& ip[0] == 0xfe && ip[1] == 0x80
            &&& forall|i: int| 2 <= i < 8 ==> ip[i] == 0
            &&& address matches Some(MacAddress::Short(a)) ==> ip.skip(8) =~= seq![
                0u8,
                0u8,
                0u8,
                0xffu8,
                0xfeu8,
                0u8,
            ] + a@
            &&& address matches Some(MacAddress::Extended(a)) ==> ip[8] == a@[0] ^ 0x02
                && ip.skip(9) =~= a@.skip(1)
        },
{
}

/// The header of a frame.
pub open spec fn frame_header(frame: Seq<u8>) -> Option<FrameHeader> {
    match frame_summary(frame) {
        Some(summary) => Some(
            FrameHeader {
                summary,
                dst_addr: frame_dst_addr(frame),
                src_addr: frame_src_addr(frame),
            },
        ),
        None => None,
    }
}

/// Calls `Ieee802154Frame::frame_type`, which reads the two octets of the
/// frame control field and panics on fewer.
///
/// Claimed of it: the type is the lowest three bits of the first octet.
#[verifier::external_body]
pub(crate) fn frame_type(frame: &[u8]) -> (code: u8)
    requires
        frame@.len() >= 2,
    ensures
        code == frame_type_of(frame@),
{
    Ieee802154Frame::new_unchecked(frame).frame_type().into()
}

/// Calls `Ieee802154Repr::parse`, which refuses a frame that is too short for
/// its own header or longer than a frame can be.
///
/// Claimed of it: the result depends on the octets alone; a frame that is not
/// refused has 3 to 127 of them, and at least 4 if it is secured; and its type
/// and its security bit are where the frame control field has them.
#[verifier::external_body]
pub(crate) fn parse_summary(frame: &[u8]) -> (summary: Option<FrameSummary>)
    ensures
        summary == frame_summary(frame@),
        summary is Some ==> 3 <= frame@.len() <= MAX_FRAME_LEN,
        summary is Some && security_bit_of(frame@) ==> frame@.len() >= 4,
        summary matches Some(s) ==> s.frame_type == frame_type_of(frame@) && s.security_enabled
            == security_bit_of(frame@),
{
    let repr = Ieee802154Repr::parse(&Ieee802154Frame::new_unchecked(frame)).ok()?;
    Some(FrameSummary {
        frame_type: repr.frame_type.into(),
        security_enabled: repr.security_enabled,
        frame_pending: repr.frame_pending,
        ack_request: repr.ack_request,
        sequence_number: repr.sequence_number,
        pan_id_compression: repr.pan_id_compression,
        frame_version: repr.frame_version.into(),
        dst_pan_id: repr.dst_pan_id.map(|pan| pan.0),
        src_pan_id: repr.src_pan_id.map(|pan| pan.0),
    })
}

/// Calls `Ieee802154Frame::src_addr`, which does not panic on a frame with a
/// whole header.
///
/// Claimed of it: the result depends on the octets alone.
#[verifier::external_body]
pub(crate) fn src_addr(frame: &[u8]) -> (address: Option<MacAddress>)
    requires
        well_formed(frame@),
    ensures
        address == frame_src_addr(frame@),
{
    Some(match Ieee802154Frame::new_unchecked(frame).src_addr()? {
        Ieee802154Address::Absent => MacAddress::Absent,
        Ieee802154Address::Short(bytes) => MacAddress::Short(bytes),
        Ieee802154Address::Extended(bytes) => MacAddress::Extended(bytes),
    })
}

/// Calls `Ieee802154Frame::dst_addr`, which does not panic on a frame with a
/// whole header.
///
/// Claimed of it: the result depends on the octets alone.
#[verifier::external_body]
pub(crate) fn dst_addr(frame: &[u8]) -> (address: Option<MacAddress>)
    requires
        well_formed(frame@),
    ensures
        address == frame_dst_addr(frame@),
{
    Some(match Ieee802154Frame::new_unchecked(frame).dst_addr()? {
        Ieee802154Address::Absent => MacAddress::Absent,
        Ieee802154Address::Short(bytes) => MacAddress::Short(bytes),
        Ieee802154Address::Extended(bytes) => MacAddress::Extended(bytes),
    })
}

/// Calls `Ieee802154Frame::mac_header`, which does not panic on a frame with a
/// whole header.
///
/// Claimed of it: the result depends on the octets alone, and it is the front
/// part of the frame.
#[verifier::external_body]
pub(crate) fn mac_header(frame: &[u8]) -> (header: &[u8])
    requires
        well_formed(frame@),
    ensures
        header@ == frame_mac_header(frame@),
        header@.len() <= frame@.len(),
        header@ == frame@.take(header@.len() as int),
{
    let len = Ieee802154Frame::new_unchecked(frame).mac_header().len();
    &frame[..len]
}

/// Calls `Ieee802154Frame::payload`, which does not panic on a frame with a
/// whole header.
///
/// Claimed of it: a data frame has a payload and no other frame has one, and
/// it is what follows the header that `mac_header` gives.
#[verifier::external_body]
pub(crate) fn payload(frame: &[u8]) -> (payload: Option<&[u8]>)
    requires
        well_formed(frame@),
    ensures
        payload is Some <==> frame_type_of(frame@) == FRAME_TYPE_DATA,
        payload matches Some(p) ==> frame_mac_header(frame@) + p@ == frame@,
{
    Ieee802154Frame::new_unchecked(frame).payload()
}

/// Calls `Ieee802154Frame::security_level`, which does not panic on a secured
/// frame with a whole header.
///
/// Claimed of it: the result depends on the octets alone and has three bits.
#[verifier::external_body]
pub(crate) fn security_level(frame: &[u8]) -> (level: u8)
    requires
        secured(frame@),
    ensures
        level == frame_security_level(frame@),
        level < 8,
{
    Ieee802154Frame::new_unchecked(frame).security_level()
}

/// Calls `Ieee802154Frame::frame_counter`, which does not panic on a secured
/// frame with a whole header.
///
/// Claimed of it: the result depends on the octets alone.
#[verifier::external_body]
pub(crate) fn frame_counter(frame: &[u8]) -> (counter: Option<u32>)
    requires
        secured(frame@),
    ensures
        counter == frame_counter_field(frame@),
{
    Ieee802154Frame::new_unchecked(frame).frame_counter()
}

/// Calls `Ieee802154Frame::message_integrity_code` on a secured frame of a
/// security level with a code of four octets; it does not panic if the frame
/// has as many.
///
/// Claimed of it: the code is the last four octets of the frame.
#[verifier::external_body]
pub(crate) fn message_integrity_code(frame: &[u8]) -> (code: Option<[u8; 4]>)
    requires
        secured(frame@),
        frame_security_level(frame@) == 1 || frame_security_level(frame@) == 5,
        frame@.len() >= 4,
    ensures
        code is Some,
        code.unwrap()@ == frame@.skip(frame@.len() - 4),
{
    Ieee802154Frame::new_unchecked(frame).message_integrity_code()?.try_into().ok()
}

/// Calls `SixlowpanIphcRepr::parse` on `payload` with the link-layer addresses
/// `src` and `dst` and with no address contexts. It checks the length of the
/// header itself and does not panic.
///
/// Claimed of it: the result depends on the octets and the two addresses
/// alone; there is a header only where the first three bits of the payload say
/// so; and where the second octet says that the source or the destination is
/// left out and has no context, it is the link-local address that is made of
/// `src` or of `dst`.
#[verifier::external_body]
pub(crate) fn parse_iphc(
    payload: &[u8],
    src: Option<MacAddress>,
    dst: Option<MacAddress>,
) -> (header: Option<IphcHeader>)
    ensures
        header == iphc_header(payload@, src, dst),
        header is Some ==> payload@.len() >= 2 && payload@[0] >> 5 == 3,
        header matches Some(h) ==> payload@[1] & 0x70 == 0x30 ==> link_local_address(src) == Some(
            h.src_addr@,
        ),
        header matches Some(h) ==> payload@[1] & 0x0f == 0x03 ==> link_local_address(dst) == Some(
            h.dst_addr@,
        ),
{
    let address = |address: MacAddress| match address {
        MacAddress::Absent => Ieee802154Address::Absent,
        MacAddress::Short(bytes) => Ieee802154Address::Short(bytes),
        MacAddress::Extended(bytes) => Ieee802154Address::Extended(bytes),
    };
    let packet = SixlowpanIphcPacket::new_unchecked(payload);
    let repr = SixlowpanIphcRepr::parse(&packet, src.map(address), dst.map(address), &[]).ok()?;
    let next_header = match repr.next_header {
        SixlowpanNextHeader::Compressed => None,
        SixlowpanNextHeader::Uncompressed(protocol) => Some(protocol.into()),
    };
    let (src_addr, dst_addr) = (repr.src_addr.octets(), repr.dst_addr.octets());
    let SixlowpanIphcRepr { hop_limit, ecn, dscp, flow_label, .. } = repr;
    Some(IphcHeader { src_addr, dst_addr, next_header, hop_limit, ecn, dscp, flow_label })
}

/// The header of a frame is there exactly if its fixed fields are, and tells
/// them and both addresses of the frame.
pub proof fn law_header_tells_frame(frame: Seq<u8>)
    ensures
        frame_header(frame) is Some <==> frame_summary(frame) is Some,
        frame_header(frame) matches Some(h) ==> {
            &&& frame_summary(frame) == Some(h.summary)
            &&& h.src_addr == frame_src_addr(frame)
            &&& h.dst_addr == frame_dst_addr(frame)
        },
{
}

/// The type of a frame is the number that the lowest three bits of its first
/// octet write, and the next bit tells whether it is secured.
pub proof fn law_first_octet_tells_type(frame: Seq<u8>)
    ensures
        frame_type_of(frame) == frame[0] % 8,
        security_bit_of(frame) <==> frame[0] / 8 % 2 == 1,
{
    let octet = frame[0];
    assert(octet & 0x07 == octet % 8) by (bit_vector);
    assert(octet & 0x08 != 0 <==> octet / 8 % 2 == 1) by (bit_vector);
}

/// Reads the header of a frame, if its octets suffice for one.
pub fn parse_frame_header(frame: &[u8]) -> (header: Option<FrameHeader>)
    ensures
        header == frame_header(frame@),
        header is Some ==> 3 <= frame@.len() <= MAX_FRAME_LEN,
        header is Some && security_bit_of(frame@) ==> frame@.len() >= 4,
        header is Some <==> frame_summary(frame@) is Some,
        header matches Some(h) ==> {
            &&& frame_summary(frame@) == Some(h.summary)
            &&& h.src_addr == frame_src_addr(frame@)
            &&& h.dst_addr == frame_dst_addr(frame@)
            &&& h.summary.frame_type == frame@[0] & 0x07
            &&& h.summary.security_enabled == (frame@[0] & 0x08 != 0)
        },
        header matches Some(h) ==> h.summary.frame_type == frame_type_of(frame@)
            && h.summary.security_enabled == security_bit_of(frame@),
{
    let summary = parse_summary(frame)?;
    Some(FrameHeader { summary, dst_addr: dst_addr(frame), src_addr: src_addr(frame) })
}

} // verus!
