//! The Active Operational Dataset that configures a Thread node.
//!
//! A dataset is handed to the node as hexadecimal text: a run of records, each
//! a type byte, a length byte and that many value bytes.

use vstd::prelude::*;

use crate::hex::{
    all_present, be_u16, byte_at, bytes_at, parse_hex_array, parse_hex_u16_be, parse_hex_u8, unwrapped,
};

verus! {

broadcast use vstd::array::axiom_array_ext_equal;

/// The channel of a node whose dataset names none.
pub const DEFAULT_CHANNEL: u8 = 15;

/// The PAN ID of a node whose dataset names none.
pub const DEFAULT_PAN_ID: u16 = 0x06e6;

/// The longest network name.
pub const MAX_NETWORK_NAME_LEN: usize = 32;

/// Record type of the channel: a page byte and a two-byte channel number.
pub const TLV_CHANNEL: u8 = 0x00;

/// Record type of the PAN ID.
pub const TLV_PAN_ID: u8 = 0x01;

/// Record type of the extended PAN ID.
pub const TLV_EXT_PAN_ID: u8 = 0x02;

/// Record type of the network name.
pub const TLV_NETWORK_NAME: u8 = 0x03;

/// Record type of the network key.
pub const TLV_NETWORK_KEY: u8 = 0x05;

/// The name of a network: the first `len` bytes of a fixed buffer.
#[derive(Clone, Copy)]
pub struct NetworkName {
    pub bytes: [u8; MAX_NETWORK_NAME_LEN],
    pub len: usize,
}

/// What is known of a network.
#[derive(Clone, Copy)]
pub struct ActiveDataset {
    pub channel: Option<u8>,
    pub pan_id: Option<u16>,
    pub ext_pan_id: Option<[u8; 8]>,
    pub network_key: Option<[u8; 16]>,
    pub network_name: NetworkName,
}

/// What a node tells of its dataset: all of it but the network key.
pub struct DatasetReport<'a> {
    pub channel: u8,
    pub pan_id: u16,
    pub ext_pan_id: Option<[u8; 8]>,
    pub network_name: Option<&'a [u8]>,
    pub network_key_present: bool,
}

/// A network name as a value.
#[verifier::ext_equal]
pub ghost struct NameModel {
    pub bytes: Seq<u8>,
    pub len: nat,
}

/// A dataset as a value.
#[verifier::ext_equal]
pub ghost struct DatasetModel {
    pub channel: Option<u8>,
    pub pan_id: Option<u16>,
    pub ext_pan_id: Option<Seq<u8>>,
    pub network_key: Option<Seq<u8>>,
    pub network_name: NameModel,
}

/// A report as a value.
#[verifier::ext_equal]
pub ghost struct ReportModel {
    pub channel: u8,
    pub pan_id: u16,
    pub ext_pan_id: Option<Seq<u8>>,
    pub network_name: Option<Seq<u8>>,
    pub network_key_present: bool,
}

/// One record of a dataset: its type, and its value with each byte present or
/// not.
#[verifier::ext_equal]
pub ghost struct Tlv {
    pub tlv_type: u8,
    pub value: Seq<Option<u8>>,
}

/// The bytes of an optional array.
pub open spec fn view_array<const N: usize>(array: Option<[u8; N]>) -> Option<Seq<u8>> {
    match array {
        Some(a) => Some(a@),
        None => None,
    }
}

impl View for NetworkName {
    type V = NameModel;

    open spec fn view(&self) -> NameModel {
        NameModel { bytes: self.bytes@, len: self.len as nat }
    }
}

impl View for ActiveDataset {
    type V = DatasetModel;

    open spec fn view(&self) -> DatasetModel {
        DatasetModel {
            channel: self.channel,
            pan_id: self.pan_id,
            ext_pan_id: view_array(self.ext_pan_id),
            network_key: view_array(self.network_key),
            network_name: self.network_name@,
        }
    }
}

impl<'a> View for DatasetReport<'a> {
    type V = ReportModel;

    open spec fn view(&self) -> ReportModel {
        ReportModel {
            channel: self.channel,
            pan_id: self.pan_id,
            ext_pan_id: view_array(self.ext_pan_id),
            network_name: match self.network_name {
                Some(name) => Some(name@),
                None => None,
            },
            network_key_present: self.network_key_present,
        }
    }
}

/// The empty name.
pub open spec fn empty_name() -> NameModel {
    NameModel { bytes: Seq::new(MAX_NETWORK_NAME_LEN as nat, |k: int| 0u8), len: 0 }
}

/// The dataset of which nothing is known.
pub open spec fn empty_dataset() -> DatasetModel {
    DatasetModel {
        channel: None,
        pan_id: None,
        ext_pan_id: None,
        network_key: None,
        network_name: empty_name(),
    }
}

/// How many bytes of a value are present.
pub open spec fn count_present(value: Seq<Option<u8>>) -> nat
    decreases value.len(),
{
    if value.len() == 0 {
        0
    } else {
        count_present(value.drop_last()) + (if value.last() is Some {
            1nat
        } else {
            0nat
        })
    }
}

/// How many bytes of a value go into a name.
pub open spec fn name_span(n: nat) -> nat {
    if n < MAX_NETWORK_NAME_LEN {
        n
    } else {
        MAX_NETWORK_NAME_LEN as nat
    }
}

/// The name that a value spells. Each byte keeps its place; one that is not
/// present leaves a zero there and is not counted in the length.
pub open spec fn name_of(value: Seq<Option<u8>>) -> NameModel {
    let span = name_span(value.len());
    NameModel {
        bytes: Seq::new(
            MAX_NETWORK_NAME_LEN as nat,
            |k: int|
                if k < span && value[k] is Some {
                    value[k].unwrap()
                } else {
                    0u8
                },
        ),
        len: count_present(value.take(span as int)),
    }
}

/// A dataset after one record.
pub open spec fn apply_tlv(d: DatasetModel, tlv: Tlv) -> DatasetModel {
    let value = tlv.value;
    if tlv.tlv_type == TLV_CHANNEL && value.len() == 3 {
        match (value[1], value[2]) {
            (Some(hi), Some(lo)) => DatasetModel { channel: Some(lo), ..d },
            _ => d,
        }
    } else if tlv.tlv_type == TLV_PAN_ID && value.len() == 2 {
        match (value[0], value[1]) {
            (Some(hi), Some(lo)) => DatasetModel { pan_id: Some(be_u16(hi, lo)), ..d },
            _ => DatasetModel { pan_id: None, ..d },
        }
    } else if tlv.tlv_type == TLV_EXT_PAN_ID && value.len() == 8 && all_present(value) {
        DatasetModel { ext_pan_id: Some(unwrapped(value)), ..d }
    } else if tlv.tlv_type == TLV_NETWORK_NAME {
        DatasetModel { network_name: name_of(value), ..d }
    } else if tlv.tlv_type == TLV_NETWORK_KEY && value.len() == 16 && all_present(value) {
        DatasetModel { network_key: Some(unwrapped(value)), ..d }
    } else {
        d
    }
}

/// A dataset after a run of records, the first one first.
pub open spec fn apply_all(d: DatasetModel, tlvs: Seq<Tlv>) -> DatasetModel
    decreases tlvs.len(),
{
    if tlvs.len() == 0 {
        d
    } else {
        apply_all(apply_tlv(d, tlvs[0]), tlvs.drop_first())
    }
}

/// The records written from position `i` on, up to the first one whose type or
/// length is not written in hexadecimal or whose value is cut short.
pub open spec fn tlvs_from(hex: Seq<u8>, i: int) -> Seq<Tlv>
    decreases hex.len() - i,
{
    if i < 0 || i + 4 > hex.len() {
        Seq::empty()
    } else {
        match (byte_at(hex, i), byte_at(hex, i + 2)) {
            (Some(tlv_type), Some(len)) => if i + 4 + 2 * len > hex.len() {
                Seq::empty()
            } else {
                seq![Tlv { tlv_type, value: bytes_at(hex, i + 4, len as nat) }] + tlvs_from(
                    hex,
                    i + 4 + 2 * len,
                )
            },
            _ => Seq::empty(),
        }
    }
}

/// The dataset that a hexadecimal text describes.
pub open spec fn dataset_of(hex: Seq<u8>) -> DatasetModel {
    apply_all(empty_dataset(), tlvs_from(hex, 0))
}

/// The report of a dataset.
pub open spec fn report_of(d: DatasetModel) -> ReportModel {
    let name = d.network_name;
    ReportModel {
        channel: d.channel.unwrap_or(DEFAULT_CHANNEL),
        pan_id: d.pan_id.unwrap_or(DEFAULT_PAN_ID),
        ext_pan_id: d.ext_pan_id,
        network_name: if name.len > 0 {
            Some(name.bytes.take(name.len as int))
        } else {
            None
        },
        network_key_present: d.network_key is Some,
    }
}

impl NetworkName {
    /// The name lies within its buffer.
    pub open spec fn wf(self) -> bool {
        self.len <= MAX_NETWORK_NAME_LEN
    }

    /// The empty name.
    pub fn empty() -> (name: Self)
        ensures
            name.wf(),
            name@ == empty_name(),
            name.len == 0,
            forall|i: int| 0 <= i < MAX_NETWORK_NAME_LEN ==> #[trigger] name.bytes@[i] == 0,
    {
        let name = NetworkName { bytes: [0; MAX_NETWORK_NAME_LEN], len: 0 };
        assert(name.bytes@ =~= empty_name().bytes);
        name
    }
}

impl ActiveDataset {
    /// The name lies within its buffer.
    pub open spec fn wf(self) -> bool {
        self.network_name.wf()
    }

    /// The dataset of which nothing is known.
    fn empty() -> (dataset: Self)
        ensures
            dataset.wf(),
            dataset@ == empty_dataset(),
    {
        ActiveDataset {
            channel: None,
            pan_id: None,
            ext_pan_id: None,
            network_key: None,
            network_name: NetworkName::empty(),
        }
    }

    /// The channel to listen on.
    pub fn channel_or_default(&self) -> (channel: u8)
        ensures
            channel == self@.channel.unwrap_or(DEFAULT_CHANNEL),
            channel == (match self.channel {
                Some(known) => known,
                None => 15,
            }),
    {
        self.channel.unwrap_or(DEFAULT_CHANNEL)
    }

    /// The PAN ID of the network.
    pub fn pan_id_or_default(&self) -> (pan_id: u16)
        ensures
            pan_id == self@.pan_id.unwrap_or(DEFAULT_PAN_ID),
            pan_id == (match self.pan_id {
                Some(known) => known,
                None => 0x06e6,
            }),
    {
        self.pan_id.unwrap_or(DEFAULT_PAN_ID)
    }

    /// What the node tells of this dataset. An empty name is not told.
    pub fn report(&self) -> (report: DatasetReport<'_>)
        requires
            self.wf(),
        ensures
            report@ == report_of(self@),
            report.channel == (match self.channel {
                Some(known) => known,
                None => 15,
            }),
            report.pan_id == (match self.pan_id {
                Some(known) => known,
                None => 0x06e6,
            }),
            report.ext_pan_id == self.ext_pan_id,
            report.network_name is Some <==> self.network_name.len > 0,
            report.network_name matches Some(name) ==> name@ == self.network_name.bytes@.take(
                self.network_name.len as int,
            ),
            report.network_key_present == self.network_key.is_some(),
    {
        let name = if self.network_name.len > 0 {
            let bytes: &[u8] = &self.network_name.bytes;
            Some(&bytes[0..self.network_name.len])
        } else {
            None
        };
        DatasetReport {
            channel: self.channel_or_default(),
            pan_id: self.pan_id_or_default(),
            ext_pan_id: self.ext_pan_id,
            network_name: name,
            network_key_present: self.network_key.is_some(),
        }
    }
}

/// How far beyond its start the value of a record is looked at, in digits.
pub open spec fn reach(tlv_type: u8, tlv_len: nat) -> nat {
    if tlv_type == TLV_CHANNEL && tlv_len == 3 {
        2
    } else if tlv_type == TLV_NETWORK_NAME {
        2 * name_span(tlv_len)
    } else {
        0
    }
}

/// Takes one record into `dataset`: a value of `tlv_len` bytes, written from
/// `value_start` on.
pub fn parse_dataset_tlv(
    dataset: &mut ActiveDataset,
    tlv_type: u8,
    tlv_len: usize,
    hex: &[u8],
    value_start: usize,
)
    requires
        value_start + reach(tlv_type, tlv_len as nat) <= usize::MAX,
    ensures
        final(dataset)@ == apply_tlv(
            old(dataset)@,
            Tlv { tlv_type, value: bytes_at(hex@, value_start as int, tlv_len as nat) },
        ),
        old(dataset).wf() ==> final(dataset).wf(),
        if tlv_type == 0x00 && tlv_len == 3 && byte_at(hex@, value_start + 2) is Some && byte_at(
            hex@,
            value_start + 4,
        ) is Some {
            final(dataset).channel == byte_at(hex@, value_start + 4)
        } else {
            final(dataset).channel == old(dataset).channel
        },
        if tlv_type == 0x01 && tlv_len == 2 {
            match final(dataset).pan_id {
                Some(p) => byte_at(hex@, value_start as int) == Some((p / 256) as u8) && byte_at(
                    hex@,
                    value_start + 2,
                ) == Some((p % 256) as u8),
                None => byte_at(hex@, value_start as int) is None || byte_at(
                    hex@,
                    value_start + 2,
                ) is None,
            }
        } else {
            final(dataset).pan_id == old(dataset).pan_id
        },
        !(tlv_type == 0x02 && tlv_len == 8) ==> final(dataset).ext_pan_id == old(
            dataset,
        ).ext_pan_id,
        tlv_type == 0x02 && tlv_len == 8 ==> (final(dataset).ext_pan_id == old(dataset).ext_pan_id
            || (final(dataset).ext_pan_id matches Some(id) && forall|k: int|
            0 <= k < 8 ==> byte_at(hex@, value_start + 2 * k) == Some(#[trigger] id@[k]))),
        !(tlv_type == 0x05 && tlv_len == 16) ==> final(dataset).network_key == old(
            dataset,
        ).network_key,
        tlv_type == 0x05 && tlv_len == 16 ==> (final(dataset).network_key == old(
            dataset,
        ).network_key || (final(dataset).network_key matches Some(key) && forall|k: int|
            0 <= k < 16 ==> byte_at(hex@, value_start + 2 * k) == Some(#[trigger] key@[k]))),
        tlv_type != 0x03 ==> final(dataset).network_name == old(dataset).network_name,
        tlv_type == 0x03 ==> forall|k: int|
            0 <= k < MAX_NETWORK_NAME_LEN ==> #[trigger] final(dataset).network_name.bytes@[k] == (
            if k < tlv_len && byte_at(hex@, value_start + 2 * k) is Some {
                byte_at(hex@, value_start + 2 * k).unwrap()
            } else {
                0u8
            }),
{
    let ghost value = bytes_at(hex@, value_start as int, tlv_len as nat);
    if tlv_type == TLV_CHANNEL && tlv_len == 3 {
        assert(value[1] == byte_at(hex@, value_start + 2));
        assert(value[2] == byte_at(hex@, value_start + 4));
        if let Some(ch) = parse_hex_u16_be(hex, value_start + 2) {
            proof {
                let hi = value[1].unwrap();
                let lo = value[2].unwrap();
                assert(ch == (256 * hi + lo) as u16 ==> ch as u8 == lo) by (bit_vector);
            }
            dataset.channel = Some(#[verifier::truncate] (ch as u8));
        }
    } else if tlv_type == TLV_PAN_ID && tlv_len == 2 {
        assert(value[0] == byte_at(hex@, value_start as int));
        assert(value[1] == byte_at(hex@, value_start + 2));
        dataset.pan_id = parse_hex_u16_be(hex, value_start);
    } else if tlv_type == TLV_EXT_PAN_ID && tlv_len == 8 {
        let mut out = [0u8; 8];
        if parse_hex_array(hex, value_start, &mut out) {
            assert(out@ =~= unwrapped(value));
            dataset.ext_pan_id = Some(out);
        }
    } else if tlv_type == TLV_NETWORK_NAME {
        dataset.network_name = parse_network_name(hex, value_start, tlv_len);
        assert forall|k: int| 0 <= k < MAX_NETWORK_NAME_LEN implies #[trigger] dataset.network_name.bytes@[k]
            == (if k < tlv_len && byte_at(hex@, value_start + 2 * k) is Some {
            byte_at(hex@, value_start + 2 * k).unwrap()
        } else {
            0u8
        }) by {
            assert(dataset.network_name@.bytes[k] == name_of(value).bytes[k]);
            if k < tlv_len {
                assert(value[k] == byte_at(hex@, value_start + 2 * k));
            }
        }
    } else if tlv_type == TLV_NETWORK_KEY && tlv_len == 16 {
        let mut out = [0u8; 16];
        if parse_hex_array(hex, value_start, &mut out) {
            assert(out@ =~= unwrapped(value));
            dataset.network_key = Some(out);
        }
    }
}

/// The name spelled by `tlv_len` bytes from `value_start` on.
fn parse_network_name(hex: &[u8], value_start: usize, tlv_len: usize) -> (name: NetworkName)
    requires
        value_start + 2 * name_span(tlv_len as nat) <= usize::MAX,
    ensures
        name.wf(),
        name@ == name_of(bytes_at(hex@, value_start as int, tlv_len as nat)),
{
    let ghost value = bytes_at(hex@, value_start as int, tlv_len as nat);
    let copy_len = if tlv_len < MAX_NETWORK_NAME_LEN {
        tlv_len
    } else {
        MAX_NETWORK_NAME_LEN
    };
    let mut name = NetworkName::empty();
    let mut n: usize = 0;
    while n < copy_len
        invariant
            n <= copy_len <= MAX_NETWORK_NAME_LEN,
            copy_len == name_span(tlv_len as nat),
            value_start + 2 * copy_len <= usize::MAX,
            value == bytes_at(hex@, value_start as int, tlv_len as nat),
            name.len <= n,
            name.len == count_present(value.take(n as int)),
            forall|k: int|
                0 <= k < MAX_NETWORK_NAME_LEN ==> #[trigger] name.bytes@[k] == (if k < n
                    && value[k] is Some {
                    value[k].unwrap()
                } else {
                    0u8
                }),
        decreases copy_len - n,
    {
        assert(value.take(n + 1).drop_last() =~= value.take(n as int));
        assert(value[n as int] == byte_at(hex@, value_start + 2 * n));
        if let Some(byte) = parse_hex_u8(hex, value_start + n * 2) {
            name.bytes[n] = byte;
            name.len = name.len + 1;
        }
        n = n + 1;
    }
    assert(name@.bytes =~= name_of(value).bytes);
    name
}

/// Reads the dataset described by `hex`, hexadecimal digits in ASCII.
///
/// Reading stops at the first record that is malformed or cut short; what was
/// read up to there is kept.
pub fn parse_thread_dataset(hex: &[u8]) -> (dataset: ActiveDataset)
    ensures
        dataset.wf(),
        dataset@ == dataset_of(hex@),
        dataset.channel == dataset_of(hex@).channel,
        dataset.pan_id == dataset_of(hex@).pan_id,
        match dataset.ext_pan_id {
            Some(id) => dataset_of(hex@).ext_pan_id == Some(id@),
            None => dataset_of(hex@).ext_pan_id is None,
        },
        match dataset.network_key {
            Some(key) => dataset_of(hex@).network_key == Some(key@),
            None => dataset_of(hex@).network_key is None,
        },
        dataset.network_name.bytes@ == dataset_of(hex@).network_name.bytes,
        dataset.network_name.len == dataset_of(hex@).network_name.len,
{
    let mut dataset = ActiveDataset::empty();
    let mut i: usize = 0;
    while hex.len() - i >= 4
        invariant
            i <= hex.len(),
            dataset.wf(),
            apply_all(dataset@, tlvs_from(hex@, i as int)) == dataset_of(hex@),
        decreases hex.len() - i,
    {
        let tlv_type = match parse_hex_u8(hex, i) {
            Some(byte) => byte,
            None => return dataset,
        };
        let tlv_len = match parse_hex_u8(hex, i + 2) {
            Some(byte) => byte,
            None => return dataset,
        };
        let value_start = i + 4;
        let value_hex_len = tlv_len as usize * 2;
        if value_hex_len > hex.len() - value_start {
            return dataset;
        }
        proof {
            let tlv = Tlv { tlv_type, value: bytes_at(hex@, i + 4, tlv_len as nat) };
            let rest = tlvs_from(hex@, i + 4 + 2 * tlv_len);
            assert(tlvs_from(hex@, i as int) == seq![tlv] + rest);
            assert((seq![tlv] + rest).drop_first() =~= rest);
        }
        parse_dataset_tlv(&mut dataset, tlv_type, tlv_len as usize, hex, value_start);
        i = value_start + value_hex_len;
    }
    dataset
}

/// The dataset of a node that was given the text `hex`, or none: without one
/// nothing is known of the network.
pub fn parse_thread_dataset_from_env(hex: Option<&str>) -> (dataset: ActiveDataset)
    ensures
        dataset.wf(),
        dataset@ == (match hex {
            Some(text) => dataset_of(vstd::utf8::encode_utf8(text@)),
            None => empty_dataset(),
        }),
        hex matches Some(text) ==> {
            let described = dataset_of(vstd::utf8::encode_utf8(text@));
            &&& dataset.channel == described.channel
            &&& dataset.pan_id == described.pan_id
            &&& match dataset.ext_pan_id {
                Some(id) => described.ext_pan_id == Some(id@),
                None => described.ext_pan_id is None,
            }
            &&& match dataset.network_key {
                Some(key) => described.network_key == Some(key@),
                None => described.network_key is None,
            }
            &&& dataset.network_name.bytes@ == described.network_name.bytes
            &&& dataset.network_name.len == described.network_name.len
        },
        hex is None ==> {
            &&& dataset.channel is None && dataset.pan_id is None && dataset.ext_pan_id is None
            &&& dataset.network_key is None && dataset.network_name.len == 0
        },
{
    match hex {
        Some(text) => parse_thread_dataset(text.as_bytes()),
        None => ActiveDataset::empty(),
    }
}

} // verus!
