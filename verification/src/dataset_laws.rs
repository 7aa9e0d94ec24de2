//! What holds of every dataset text.

use vstd::prelude::*;

use crate::dataset::{
    apply_all, apply_tlv, count_present, dataset_of, empty_dataset, name_of, report_of, tlvs_from,
    DatasetModel, NameModel, Tlv, DEFAULT_CHANNEL, DEFAULT_PAN_ID, MAX_NETWORK_NAME_LEN,
    TLV_CHANNEL, TLV_EXT_PAN_ID, TLV_NETWORK_KEY, TLV_NETWORK_NAME, TLV_PAN_ID,
};
use crate::hex::{all_present, be_u16, byte_at, bytes_at, nibble_of, unwrapped};

verus! {

/// The hexadecimal digit of `n`, in lower case.
pub open spec fn hex_digit(n: int) -> u8 {
    if n < 10 {
        (0x30 + n) as u8
    } else {
        (0x61 + n - 10) as u8
    }
}

/// The hexadecimal text of `bytes`.
pub open spec fn hex_encode(bytes: Seq<u8>) -> Seq<u8> {
    Seq::new(
        2 * bytes.len(),
        |i: int|
            hex_digit(
                if i % 2 == 0 {
                    bytes[i / 2] as int / 16
                } else {
                    bytes[i / 2] as int % 16
                },
            ),
    )
}

/// A record to be written.
#[verifier::ext_equal]
pub ghost struct RawTlv {
    pub tlv_type: u8,
    pub value: Seq<u8>,
}

/// The record as it is read, every byte present.
pub open spec fn as_read(tlv: RawTlv) -> Tlv {
    Tlv { tlv_type: tlv.tlv_type, value: tlv.value.map_values(|b: u8| Some(b)) }
}

/// The text of one record.
pub open spec fn encode_tlv(tlv: RawTlv) -> Seq<u8> {
    hex_encode(seq![tlv.tlv_type, tlv.value.len() as u8] + tlv.value)
}

/// The text of a run of records.
pub open spec fn encode_tlvs(tlvs: Seq<RawTlv>) -> Seq<u8>
    decreases tlvs.len(),
{
    if tlvs.len() == 0 {
        Seq::empty()
    } else {
        encode_tlv(tlvs[0]) + encode_tlvs(tlvs.drop_first())
    }
}

/// Every value is short enough for its length byte.
pub open spec fn encodable(tlvs: Seq<RawTlv>) -> bool {
    forall|i: int| 0 <= i < tlvs.len() ==> (#[trigger] tlvs[i]).value.len() <= 255
}

proof fn lemma_byte_at_encoded(bytes: Seq<u8>, rest: Seq<u8>, k: int)
    requires
        0 <= k < bytes.len(),
    ensures
        byte_at(hex_encode(bytes) + rest, 2 * k) == Some(bytes[k]),
{
    let text = hex_encode(bytes) + rest;
    let b = bytes[k] as int;
    assert(text[2 * k] == hex_digit(b / 16)) by {
        assert((2 * k) / 2 == k && (2 * k) % 2 == 0);
    }
    assert(text[2 * k + 1] == hex_digit(b % 16)) by {
        assert((2 * k + 1) / 2 == k && (2 * k + 1) % 2 == 1);
    }
    assert(nibble_of(hex_digit(b / 16)) == Some((b / 16) as u8));
    assert(nibble_of(hex_digit(b % 16)) == Some((b % 16) as u8));
}

proof fn lemma_tlvs_shift(front: Seq<u8>, hex: Seq<u8>, i: int)
    requires
        0 <= i,
    ensures
        tlvs_from(front + hex, front.len() + i) == tlvs_from(hex, i),
    decreases hex.len() - i,
{
    let text = front + hex;
    let at = front.len() + i;
    assert forall|j: int| 0 <= j implies byte_at(text, front.len() + j) == #[trigger] byte_at(
        hex,
        j,
    ) by {}
    if i + 4 <= hex.len() {
        match (byte_at(hex, i), byte_at(hex, i + 2)) {
            (Some(tlv_type), Some(len)) => {
                assert(byte_at(text, at) == byte_at(hex, i));
                assert(byte_at(text, at + 2) == byte_at(hex, i + 2));
                if i + 4 + 2 * len <= hex.len() {
                    lemma_tlvs_shift(front, hex, i + 4 + 2 * len);
                    assert(bytes_at(text, at + 4, len as nat) =~= bytes_at(hex, i + 4, len as nat))
                        by {
                        assert forall|k: int|
                            0 <= k < len implies #[trigger] bytes_at(text, at + 4, len as nat)[k]
                            == bytes_at(hex, i + 4, len as nat)[k] by {
                            assert(byte_at(text, front.len() + (i + 4 + 2 * k)) == byte_at(
                                hex,
                                i + 4 + 2 * k,
                            ));
                        }
                    }
                }
            },
            _ => {
                assert(byte_at(text, at) == byte_at(hex, i));
                assert(byte_at(text, at + 2) == byte_at(hex, i + 2));
            },
        }
    }
}

/// Records that are written are read back, whatever text follows them: what
/// follows can add records behind them but not change them.
pub proof fn law_records_read_back(tlvs: Seq<RawTlv>, rest: Seq<u8>)
    requires
        encodable(tlvs),
    ensures
        tlvs_from(encode_tlvs(tlvs) + rest, 0) == tlvs.map_values(|t: RawTlv| as_read(t))
            + tlvs_from(rest, 0),
    decreases tlvs.len(),
{
    let read = |t: RawTlv| as_read(t);
    if tlvs.len() == 0 {
        assert(encode_tlvs(tlvs) + rest =~= rest);
        assert(tlvs.map_values(read) + tlvs_from(rest, 0) =~= tlvs_from(rest, 0));
    } else {
        let first = tlvs[0];
        let others = tlvs.drop_first();
        let raw = seq![first.tlv_type, first.value.len() as u8] + first.value;
        let head = encode_tlv(first);
        let tail = encode_tlvs(others) + rest;
        let text = encode_tlvs(tlvs) + rest;
        let n = first.value.len();
        assert(text =~= head + tail);
        assert forall|i: int| 0 <= i < others.len() implies (#[trigger] others[i]).value.len()
            <= 255 by {
            assert(others[i] == tlvs[i + 1]);
        }
        law_records_read_back(others, rest);
        lemma_byte_at_encoded(raw, tail, 0);
        lemma_byte_at_encoded(raw, tail, 1);
        assert(bytes_at(text, 4, n) =~= as_read(first).value) by {
            assert forall|k: int| 0 <= k < n implies #[trigger] bytes_at(text, 4, n)[k] == Some(
                first.value[k],
            ) by {
                lemma_byte_at_encoded(raw, tail, k + 2);
            }
        }
        lemma_tlvs_shift(head, tail, 0);
        assert(head.len() == 4 + 2 * n);
        assert(tlvs_from(text, 0) == seq![as_read(first)] + tlvs_from(tail, 0));
        assert(tlvs.map_values(read) =~= seq![as_read(first)] + others.map_values(read));
        assert(tlvs_from(text, 0) =~= tlvs.map_values(read) + tlvs_from(rest, 0));
    }
}

proof fn lemma_apply_append(d: DatasetModel, a: Seq<Tlv>, b: Seq<Tlv>)
    ensures
        apply_all(d, a + b) == apply_all(apply_all(d, a), b),
    decreases a.len(),
{
    if a.len() == 0 {
        assert(a + b =~= b);
    } else {
        assert((a + b).drop_first() =~= a.drop_first() + b);
        lemma_apply_append(apply_tlv(d, a[0]), a.drop_first(), b);
    }
}

proof fn lemma_apply_one(d: DatasetModel, tlv: Tlv)
    ensures
        apply_all(d, seq![tlv]) == apply_tlv(d, tlv),
{
    assert(seq![tlv].drop_first() =~= Seq::<Tlv>::empty());
    assert(apply_all(apply_tlv(d, tlv), Seq::<Tlv>::empty()) == apply_tlv(d, tlv));
}

/// Records are taken in order: a further record acts on what those before it
/// have left.
pub proof fn law_later_record_acts_last(d: DatasetModel, tlvs: Seq<Tlv>, tlv: Tlv)
    ensures
        apply_all(d, tlvs.push(tlv)) == apply_tlv(apply_all(d, tlvs), tlv),
{
    assert(tlvs.push(tlv) =~= tlvs + seq![tlv]);
    lemma_apply_append(d, tlvs, seq![tlv]);
    lemma_apply_one(apply_all(d, tlvs), tlv);
}

/// No record of type `tlv_type` is among `tlvs`.
pub open spec fn without_type(tlvs: Seq<Tlv>, tlv_type: u8) -> bool {
    forall|i: int| 0 <= i < tlvs.len() ==> (#[trigger] tlvs[i]).tlv_type != tlv_type
}

/// A field changes only through records of its own type. Records of any other
/// type, known or not, leave it as it was.
pub proof fn law_fields_are_independent(d: DatasetModel, tlvs: Seq<Tlv>)
    ensures
        without_type(tlvs, TLV_CHANNEL) ==> apply_all(d, tlvs).channel == d.channel,
        without_type(tlvs, TLV_PAN_ID) ==> apply_all(d, tlvs).pan_id == d.pan_id,
        without_type(tlvs, TLV_EXT_PAN_ID) ==> apply_all(d, tlvs).ext_pan_id == d.ext_pan_id,
        without_type(tlvs, TLV_NETWORK_NAME) ==> apply_all(d, tlvs).network_name == d.network_name,
        without_type(tlvs, TLV_NETWORK_KEY) ==> apply_all(d, tlvs).network_key == d.network_key,
    decreases tlvs.len(),
{
    if tlvs.len() > 0 {
        let others = tlvs.drop_first();
        assert forall|t: u8| #[trigger] without_type(tlvs, t) implies without_type(others, t)
            && tlvs[0].tlv_type != t by {
            assert forall|i: int| 0 <= i < others.len() implies (#[trigger] others[i]).tlv_type
                != t by {
                assert(others[i] == tlvs[i + 1]);
            }
        }
        law_fields_are_independent(apply_tlv(d, tlvs[0]), others);
    }
}

/// A record type that a dataset knows.
pub open spec fn known_type(tlv_type: u8) -> bool {
    tlv_type == TLV_CHANNEL || tlv_type == TLV_PAN_ID || tlv_type == TLV_EXT_PAN_ID || tlv_type
        == TLV_NETWORK_NAME || tlv_type == TLV_NETWORK_KEY
}

/// A record of an unknown type is skipped, wherever it stands: the dataset is
/// what it is without the record.
pub proof fn law_unknown_record_is_skipped(d: DatasetModel, tlvs: Seq<Tlv>, i: int, tlv: Tlv)
    requires
        0 <= i <= tlvs.len(),
        !known_type(tlv.tlv_type),
    ensures
        apply_all(d, tlvs.insert(i, tlv)) == apply_all(d, tlvs),
{
    let front = tlvs.take(i);
    let back = tlvs.skip(i);
    assert(tlvs =~= front + back);
    assert(tlvs.insert(i, tlv) =~= front + seq![tlv] + back);
    lemma_apply_append(d, front, back);
    lemma_apply_append(d, front + seq![tlv], back);
    lemma_apply_append(d, front, seq![tlv]);
    lemma_apply_one(apply_all(d, front), tlv);
}

/// A last record that is cut off anywhere is skipped: the dataset is what the
/// records before it describe.
pub proof fn law_cut_off_record_is_skipped(tlvs: Seq<RawTlv>, tlv: RawTlv, n: int)
    requires
        encodable(tlvs),
        tlv.value.len() <= 255,
        0 <= n < encode_tlv(tlv).len(),
    ensures
        dataset_of(encode_tlvs(tlvs) + encode_tlv(tlv).take(n)) == dataset_of(encode_tlvs(tlvs)),
{
    let none = Seq::<u8>::empty();
    let raw = seq![tlv.tlv_type, tlv.value.len() as u8] + tlv.value;
    let text = encode_tlv(tlv);
    let cut = text.take(n);
    assert(tlvs_from(cut, 0) =~= Seq::<Tlv>::empty()) by {
        lemma_byte_at_encoded(raw, none, 0);
        lemma_byte_at_encoded(raw, none, 1);
        assert(text + none =~= text);
        if n >= 4 {
            assert(byte_at(cut, 0) == byte_at(text, 0));
            assert(byte_at(cut, 2) == byte_at(text, 2));
        }
    }
    law_records_read_back(tlvs, cut);
    law_records_read_back(tlvs, none);
    assert(encode_tlvs(tlvs) + none =~= encode_tlvs(tlvs));
    assert(tlvs_from(none, 0) =~= Seq::<Tlv>::empty());
}

/// No two records of `tlvs` have the same type.
pub open spec fn distinct_types(tlvs: Seq<Tlv>) -> bool {
    forall|i: int, j: int|
        0 <= i < j < tlvs.len() ==> (#[trigger] tlvs[i]).tlv_type != (#[trigger] tlvs[j]).tlv_type
}

/// A record can be taken before others of other types.
proof fn lemma_move_to_front(d: DatasetModel, tlvs: Seq<Tlv>, i: int)
    requires
        distinct_types(tlvs),
        0 <= i < tlvs.len(),
    ensures
        apply_all(d, tlvs) == apply_all(apply_tlv(d, tlvs[i]), tlvs.remove(i)),
    decreases i,
{
    if i == 0 {
        assert(tlvs.remove(0) =~= tlvs.drop_first());
    } else {
        let (first, tlv) = (tlvs[0], tlvs[i]);
        let others = tlvs.drop_first();
        lemma_move_to_front(apply_tlv(d, first), others, i - 1);
        assert(tlvs.remove(i)[0] == first);
        assert(tlvs.remove(i).drop_first() =~= others.remove(i - 1));
        assert(first.tlv_type != tlv.tlv_type);
        assert(apply_tlv(apply_tlv(d, first), tlv) == apply_tlv(apply_tlv(d, tlv), first));
    }
}

/// Whether a type occurs twice does not depend on the order.
proof fn lemma_same_records(a: Seq<Tlv>, b: Seq<Tlv>)
    requires
        a.to_multiset() == b.to_multiset(),
        distinct_types(a),
    ensures
        distinct_types(b),
{
    broadcast use vstd::seq_lib::group_to_multiset_ensures;

    assert(a.no_duplicates());
    a.lemma_multiset_has_no_duplicates();
    b.lemma_multiset_has_no_duplicates_conv();
    assert forall|i: int, j: int| 0 <= i < j < b.len() implies (#[trigger] b[i]).tlv_type != (
    #[trigger] b[j]).tlv_type by {
        assert(b.to_multiset().count(b[i]) > 0 && b.to_multiset().count(b[j]) > 0);
        assert(a.contains(b[i]) && a.contains(b[j]));
        let p = a.index_of(b[i]);
        let q = a.index_of(b[j]);
        assert(a[p] == b[i] && a[q] == b[j]);
    }
}

/// Where no type occurs twice, the order of the records does not matter.
pub proof fn law_order_is_irrelevant(d: DatasetModel, a: Seq<Tlv>, b: Seq<Tlv>)
    requires
        a.to_multiset() == b.to_multiset(),
        distinct_types(a),
    ensures
        apply_all(d, a) == apply_all(d, b),
    decreases a.len(),
{
    broadcast use vstd::seq_lib::group_to_multiset_ensures;

    assert(a.len() == a.to_multiset().len() && b.len() == b.to_multiset().len());
    if a.len() > 0 {
        assert(a.contains(a[0]));
        assert(b.to_multiset().count(a[0]) > 0);
        let i = b.index_of(a[0]);
        lemma_same_records(a, b);
        lemma_move_to_front(d, b, i);
        let (a1, b1) = (a.remove(0), b.remove(i));
        assert(a1 =~= a.drop_first());
        assert(a1.to_multiset() =~= b1.to_multiset());
        law_order_is_irrelevant(apply_tlv(d, a[0]), a1, b1);
    }
}

/// A character in lower case.
pub open spec fn lower(b: u8) -> u8 {
    if 0x41 <= b <= 0x5a {
        (b + 0x20) as u8
    } else {
        b
    }
}

proof fn lemma_same_tlvs(a: Seq<u8>, b: Seq<u8>, i: int)
    requires
        a.len() == b.len(),
        forall|j: int| byte_at(a, j) == #[trigger] byte_at(b, j),
    ensures
        tlvs_from(a, i) == tlvs_from(b, i),
    decreases a.len() - i,
{
    if 0 <= i && i + 4 <= a.len() {
        assert(byte_at(a, i) == byte_at(b, i));
        assert(byte_at(a, i + 2) == byte_at(b, i + 2));
        match (byte_at(b, i), byte_at(b, i + 2)) {
            (Some(tlv_type), Some(len)) => {
                if i + 4 + 2 * len <= a.len() {
                    lemma_same_tlvs(a, b, i + 4 + 2 * len);
                    assert(bytes_at(a, i + 4, len as nat) =~= bytes_at(b, i + 4, len as nat));
                }
            },
            _ => {},
        }
    }
}

/// The case of the digits does not matter.
pub proof fn law_case_is_irrelevant(a: Seq<u8>, b: Seq<u8>)
    requires
        a.len() == b.len(),
        forall|i: int| 0 <= i < a.len() ==> lower(#[trigger] a[i]) == lower(b[i]),
    ensures
        dataset_of(a) == dataset_of(b),
{
    assert forall|j: int| byte_at(a, j) == #[trigger] byte_at(b, j) by {
        if 0 <= j && j + 2 <= a.len() {
            assert(lower(a[j]) == lower(b[j]));
            assert(lower(a[j + 1]) == lower(b[j + 1]));
            assert(nibble_of(a[j]) == nibble_of(b[j]));
            assert(nibble_of(a[j + 1]) == nibble_of(b[j + 1]));
        }
    }
    lemma_same_tlvs(a, b, 0);
}

/// A dataset that a text can describe in full: its fields have their sizes and
/// its name is padded with zeros.
pub open spec fn describable(d: DatasetModel) -> bool {
    let name = d.network_name;
    &&& d.ext_pan_id matches Some(id) ==> id.len() == 8
    &&& d.network_key matches Some(key) ==> key.len() == 16
    &&& name.bytes.len() == MAX_NETWORK_NAME_LEN
    &&& name.len <= MAX_NETWORK_NAME_LEN
    &&& forall|k: int| name.len <= k < MAX_NETWORK_NAME_LEN ==> #[trigger] name.bytes[k] == 0
}

/// The record that writes a channel, if there is one.
pub open spec fn channel_records(channel: Option<u8>) -> Seq<RawTlv> {
    match channel {
        Some(c) => seq![RawTlv { tlv_type: TLV_CHANNEL, value: seq![0u8, 0u8, c] }],
        None => Seq::empty(),
    }
}

/// The record that writes a PAN ID, if there is one.
pub open spec fn pan_id_records(pan_id: Option<u16>) -> Seq<RawTlv> {
    match pan_id {
        Some(p) => seq![
            RawTlv { tlv_type: TLV_PAN_ID, value: seq![(p / 256) as u8, (p % 256) as u8] },
        ],
        None => Seq::empty(),
    }
}

/// The record of type `tlv_type` that writes `bytes`, if there are any.
pub open spec fn bytes_records(tlv_type: u8, bytes: Option<Seq<u8>>) -> Seq<RawTlv> {
    match bytes {
        Some(value) => seq![RawTlv { tlv_type, value }],
        None => Seq::empty(),
    }
}

/// The record that writes a name.
pub open spec fn name_record(name: NameModel) -> RawTlv {
    RawTlv { tlv_type: TLV_NETWORK_NAME, value: name.bytes.take(name.len as int) }
}

/// The records that write the fields of a dataset.
pub open spec fn records_of(d: DatasetModel) -> Seq<RawTlv> {
    channel_records(d.channel) + pan_id_records(d.pan_id) + bytes_records(
        TLV_EXT_PAN_ID,
        d.ext_pan_id,
    ) + bytes_records(TLV_NETWORK_KEY, d.network_key) + seq![name_record(d.network_name)]
}

proof fn lemma_count_all(value: Seq<Option<u8>>)
    requires
        all_present(value),
    ensures
        count_present(value) == value.len(),
    decreases value.len(),
{
    if value.len() > 0 {
        assert(value.last() is Some);
        assert forall|k: int| 0 <= k < value.drop_last().len() implies (
        #[trigger] value.drop_last()[k]) is Some by {
            assert(value.drop_last()[k] == value[k]);
        }
        lemma_count_all(value.drop_last());
    }
}

proof fn lemma_apply_read(d: DatasetModel, tlvs: Seq<RawTlv>, others: Seq<RawTlv>)
    ensures
        apply_all(d, (tlvs + others).map_values(|t: RawTlv| as_read(t))) == apply_all(
            apply_all(d, tlvs.map_values(|t: RawTlv| as_read(t))),
            others.map_values(|t: RawTlv| as_read(t)),
        ),
{
    let read = |t: RawTlv| as_read(t);
    assert((tlvs + others).map_values(read) =~= tlvs.map_values(read) + others.map_values(read));
    lemma_apply_append(d, tlvs.map_values(read), others.map_values(read));
}

/// What a short run of at most one record does.
proof fn lemma_apply_read_short(d: DatasetModel, tlvs: Seq<RawTlv>)
    requires
        tlvs.len() <= 1,
    ensures
        apply_all(d, tlvs.map_values(|t: RawTlv| as_read(t))) == (if tlvs.len() == 0 {
            d
        } else {
            apply_tlv(d, as_read(tlvs[0]))
        }),
{
    let read = |t: RawTlv| as_read(t);
    if tlvs.len() == 1 {
        assert(tlvs.map_values(read) =~= seq![as_read(tlvs[0])]);
        lemma_apply_one(d, as_read(tlvs[0]));
    }
}

/// A dataset that is written out is read back in full.
pub proof fn law_dataset_reads_back(d: DatasetModel)
    requires
        describable(d),
    ensures
        dataset_of(encode_tlvs(records_of(d))) == d,
{
    let read = |t: RawTlv| as_read(t);
    let channel = channel_records(d.channel);
    let pan_id = pan_id_records(d.pan_id);
    let ext_pan_id = bytes_records(TLV_EXT_PAN_ID, d.ext_pan_id);
    let network_key = bytes_records(TLV_NETWORK_KEY, d.network_key);
    let name = d.network_name;
    let network_name = seq![name_record(name)];
    let all = records_of(d);

    law_records_read_back(all, Seq::empty());
    assert(encode_tlvs(all) + Seq::<u8>::empty() =~= encode_tlvs(all));
    assert(all.map_values(read) + tlvs_from(Seq::<u8>::empty(), 0) =~= all.map_values(read));

    let d0 = empty_dataset();
    let d1 = DatasetModel { channel: d.channel, ..d0 };
    let d2 = DatasetModel { pan_id: d.pan_id, ..d1 };
    let d3 = DatasetModel { ext_pan_id: d.ext_pan_id, ..d2 };
    let d4 = DatasetModel { network_key: d.network_key, ..d3 };

    lemma_apply_read(d0, channel + pan_id + ext_pan_id + network_key, network_name);
    lemma_apply_read(d0, channel + pan_id + ext_pan_id, network_key);
    lemma_apply_read(d0, channel + pan_id, ext_pan_id);
    lemma_apply_read(d0, channel, pan_id);
    lemma_apply_read_short(d0, channel);
    lemma_apply_read_short(d1, pan_id);
    lemma_apply_read_short(d2, ext_pan_id);
    lemma_apply_read_short(d3, network_key);
    lemma_apply_read_short(d4, network_name);

    assert(apply_all(d0, channel.map_values(read)) == d1);
    assert(apply_all(d1, pan_id.map_values(read)) == d2) by {
        if let Some(p) = d.pan_id {
            assert(be_u16((p / 256) as u8, (p % 256) as u8) == p);
        }
    }
    assert(apply_all(d2, ext_pan_id.map_values(read)) == d3) by {
        if let Some(id) = d.ext_pan_id {
            assert(unwrapped(as_read(ext_pan_id[0]).value) =~= id);
        }
    }
    assert(apply_all(d3, network_key.map_values(read)) == d4) by {
        if let Some(key) = d.network_key {
            assert(unwrapped(as_read(network_key[0]).value) =~= key);
        }
    }
    assert(apply_tlv(d4, as_read(name_record(name))).network_name == name) by {
        let value = as_read(name_record(name)).value;
        assert(value.take(value.len() as int) =~= value);
        lemma_count_all(value);
        assert(name_of(value).bytes =~= name.bytes);
    }
}

/// A text is read to its end, record after record. `starts` are the places of
/// the records, the first one at the beginning and each next one right behind
/// the value of the one before it: two digits of the type, two of the length,
/// and two for each byte of the value. At the last place no record stands:
/// there is no room for one, its type or its length is not written in digits,
/// or its value is cut off.
pub proof fn law_text_is_read_to_its_end(hex: Seq<u8>) -> (starts: Seq<int>)
    ensures
        starts.len() == tlvs_from(hex, 0).len() + 1,
        starts[0] == 0,
        forall|k: int|
            0 <= k < tlvs_from(hex, 0).len() ==> {
                let tlv = #[trigger] tlvs_from(hex, 0)[k];
                &&& byte_at(hex, starts[k]) == Some(tlv.tlv_type)
                &&& tlv.value.len() <= 255
                &&& byte_at(hex, starts[k] + 2) == Some(tlv.value.len() as u8)
                &&& starts[k + 1] == starts[k] + 4 + 2 * tlv.value.len()
                &&& starts[k + 1] <= hex.len()
            },
        forall|k: int, j: int|
            0 <= k < tlvs_from(hex, 0).len() && 0 <= j < tlvs_from(hex, 0)[k].value.len()
                ==> #[trigger] tlvs_from(hex, 0)[k].value[j] == byte_at(hex, starts[k] + 4 + 2 * j),
        ({
            let end = starts.last();
            ||| end + 4 > hex.len()
            ||| byte_at(hex, end) is None
            ||| byte_at(hex, end + 2) is None
            ||| end + 4 + 2 * byte_at(hex, end + 2).unwrap() > hex.len()
        }),
{
    lemma_starts(hex, 0)
}

proof fn lemma_starts(hex: Seq<u8>, i: int) -> (starts: Seq<int>)
    requires
        0 <= i,
    ensures
        starts.len() == tlvs_from(hex, i).len() + 1,
        starts[0] == i,
        forall|k: int|
            0 <= k < tlvs_from(hex, i).len() ==> {
                let tlv = #[trigger] tlvs_from(hex, i)[k];
                &&& byte_at(hex, starts[k]) == Some(tlv.tlv_type)
                &&& tlv.value.len() <= 255
                &&& byte_at(hex, starts[k] + 2) == Some(tlv.value.len() as u8)
                &&& starts[k + 1] == starts[k] + 4 + 2 * tlv.value.len()
                &&& starts[k + 1] <= hex.len()
            },
        forall|k: int, j: int|
            0 <= k < tlvs_from(hex, i).len() && 0 <= j < tlvs_from(hex, i)[k].value.len()
                ==> #[trigger] tlvs_from(hex, i)[k].value[j] == byte_at(hex, starts[k] + 4 + 2 * j),
        ({
            let end = starts.last();
            ||| end + 4 > hex.len()
            ||| byte_at(hex, end) is None
            ||| byte_at(hex, end + 2) is None
            ||| end + 4 + 2 * byte_at(hex, end + 2).unwrap() > hex.len()
        }),
    decreases hex.len() - i,
{
    let tlvs = tlvs_from(hex, i);
    if tlvs.len() == 0 {
        seq![i]
    } else {
        let len = byte_at(hex, i + 2).unwrap();
        let next = i + 4 + 2 * len;
        let others = lemma_starts(hex, next);
        let starts = seq![i] + others;
        assert(tlvs.drop_first() =~= tlvs_from(hex, next));
        assert forall|k: int| 0 <= k < tlvs.len() implies {
            let tlv = #[trigger] tlvs[k];
            &&& byte_at(hex, starts[k]) == Some(tlv.tlv_type)
            &&& tlv.value.len() <= 255
            &&& byte_at(hex, starts[k] + 2) == Some(tlv.value.len() as u8)
            &&& starts[k + 1] == starts[k] + 4 + 2 * tlv.value.len()
            &&& starts[k + 1] <= hex.len()
        } by {
            if k > 0 {
                assert(tlvs[k] == tlvs_from(hex, next)[k - 1]);
            }
        }
        assert forall|k: int, j: int|
            0 <= k < tlvs.len() && 0 <= j < tlvs[k].value.len() implies #[trigger] tlvs[k].value[j]
            == byte_at(hex, starts[k] + 4 + 2 * j) by {
            if k > 0 {
                assert(tlvs[k] == tlvs_from(hex, next)[k - 1]);
                assert(tlvs_from(hex, next)[k - 1].value[j] == byte_at(
                    hex,
                    others[k - 1] + 4 + 2 * j,
                ));
            }
        }
        assert(starts.last() == others.last());
        starts
    }
}

/// What one record does to each field. A field that it does not write stays.
///
/// - A channel is the last of the three bytes of a record of type 0, if the last
///   two are there.
/// - A PAN ID is the number that the two bytes of a record of type 1 write, and
///   is unknown if one is not there.
/// - An extended PAN ID is the eight bytes of a record of type 2, and the network
///   key the sixteen of one of type 5, if all are there.
/// - A name is the first 32 bytes of a record of type 3, each in its place, with
///   zeros for those that are not there; its length counts those that are.
pub proof fn law_record_writes_its_field(d: DatasetModel, tlv: Tlv)
    ensures
        ({
            let after = apply_tlv(d, tlv);
            let v = tlv.value;
            &&& after.channel == if tlv.tlv_type == 0x00 && v.len() == 3 && v[1] is Some && v[2] is Some {
                v[2]
            } else {
                d.channel
            }
            &&& if tlv.tlv_type == 0x01 && v.len() == 2 {
                match after.pan_id {
                    Some(p) => v[0] == Some((p / 256) as u8) && v[1] == Some((p % 256) as u8),
                    None => v[0] is None || v[1] is None,
                }
            } else {
                after.pan_id == d.pan_id
            }
            &&& if tlv.tlv_type == 0x02 && v.len() == 8 && (forall|i: int|
                0 <= i < 8 ==> (#[trigger] v[i]) is Some) {
                after.ext_pan_id matches Some(id) && id.map_values(|b: u8| Some(b)) == v
            } else {
                after.ext_pan_id == d.ext_pan_id
            }
            &&& if tlv.tlv_type == 0x05 && v.len() == 16 && (forall|i: int|
                0 <= i < 16 ==> (#[trigger] v[i]) is Some) {
                after.network_key matches Some(key) && key.map_values(|b: u8| Some(b)) == v
            } else {
                after.network_key == d.network_key
            }
            &&& if tlv.tlv_type == 0x03 {
                &&& after.network_name.bytes.len() == 32
                &&& forall|i: int|
                    0 <= i < 32 ==> #[trigger] after.network_name.bytes[i] == if i < v.len()
                        && v[i] is Some {
                        v[i].unwrap()
                    } else {
                        0
                    }
                &&& after.network_name.len == v.take(
                    if v.len() < 32 {
                        v.len() as int
                    } else {
                        32
                    },
                ).filter(|b: Option<u8>| b is Some).len()
            } else {
                after.network_name == d.network_name
            }
        }),
{
    let after = apply_tlv(d, tlv);
    let v = tlv.value;
    if tlv.tlv_type == 0x02 && v.len() == 8 && all_present(v) {
        assert(unwrapped(v).map_values(|b: u8| Some(b)) =~= v);
    }
    if tlv.tlv_type == 0x05 && v.len() == 16 && all_present(v) {
        assert(unwrapped(v).map_values(|b: u8| Some(b)) =~= v);
    }
    if tlv.tlv_type == 0x03 {
        lemma_count_is_filter(
            v.take(
                if v.len() < 32 {
                    v.len() as int
                } else {
                    32
                },
            ),
        );
    }
}

proof fn lemma_count_is_filter(value: Seq<Option<u8>>)
    ensures
        count_present(value) == value.filter(|b: Option<u8>| b is Some).len(),
    decreases value.len(),
{
    reveal(Seq::filter);
    if value.len() > 0 {
        lemma_count_is_filter(value.drop_last());
    }
}

/// The record writes the channel.
spec fn writes_channel(t: Tlv) -> bool {
    t.tlv_type == 0x00 && t.value.len() == 3 && t.value[1] is Some && t.value[2] is Some
}

/// The record writes the PAN ID.
spec fn writes_pan_id(t: Tlv) -> bool {
    t.tlv_type == 0x01 && t.value.len() == 2
}

/// The record is of type `tlv_type` and has `n` bytes, all of them present.
spec fn writes_bytes(t: Tlv, tlv_type: u8, n: nat) -> bool {
    t.tlv_type == tlv_type && t.value.len() == n && forall|i: int|
        0 <= i < n ==> (#[trigger] t.value[i]) is Some
}

/// A field that no record writes stays.
proof fn lemma_unwritten_fields_stay(d: DatasetModel, tlvs: Seq<Tlv>)
    ensures
        (forall|i: int| 0 <= i < tlvs.len() ==> !writes_channel(#[trigger] tlvs[i])) ==> apply_all(
            d,
            tlvs,
        ).channel == d.channel,
        (forall|i: int| 0 <= i < tlvs.len() ==> !writes_pan_id(#[trigger] tlvs[i])) ==> apply_all(
            d,
            tlvs,
        ).pan_id == d.pan_id,
        (forall|i: int| 0 <= i < tlvs.len() ==> !writes_bytes(#[trigger] tlvs[i], 0x02, 8))
            ==> apply_all(d, tlvs).ext_pan_id == d.ext_pan_id,
        (forall|i: int| 0 <= i < tlvs.len() ==> !writes_bytes(#[trigger] tlvs[i], 0x05, 16))
            ==> apply_all(d, tlvs).network_key == d.network_key,
        (forall|i: int| 0 <= i < tlvs.len() ==> (#[trigger] tlvs[i]).tlv_type != 0x03) ==> apply_all(
            d,
            tlvs,
        ).network_name == d.network_name,
    decreases tlvs.len(),
{
    if tlvs.len() > 0 {
        let others = tlvs.drop_last();
        let last = tlvs.last();
        assert(tlvs =~= others.push(last));
        law_later_record_acts_last(d, others, last);
        law_record_writes_its_field(apply_all(d, others), last);
        lemma_unwritten_fields_stay(d, others);
        assert forall|i: int| 0 <= i < others.len() implies #[trigger] others[i] == tlvs[i] by {}
        assert(tlvs[tlvs.len() - 1] == last);
    }
}

/// The dataset of a text is made by the records up to number `k`, then by
/// those behind it.
proof fn lemma_split_at(hex: Seq<u8>, k: int) -> (before: DatasetModel)
    requires
        0 <= k < tlvs_from(hex, 0).len(),
    ensures
        dataset_of(hex) == apply_all(
            apply_tlv(before, tlvs_from(hex, 0)[k]),
            tlvs_from(hex, 0).skip(k + 1),
        ),
{
    let tlvs = tlvs_from(hex, 0);
    let before = apply_all(empty_dataset(), tlvs.take(k));
    assert(tlvs =~= tlvs.take(k).push(tlvs[k]) + tlvs.skip(k + 1));
    lemma_apply_append(empty_dataset(), tlvs.take(k).push(tlvs[k]), tlvs.skip(k + 1));
    law_later_record_acts_last(empty_dataset(), tlvs.take(k), tlvs[k]);
    before
}

/// The channel that a text describes is that of the last record of type 0 that
/// is whole, however many records there are, or unknown if there is none: `k`
/// is the number of that record, or -1.
pub proof fn law_last_channel_counts(hex: Seq<u8>, k: int)
    requires
        -1 <= k < tlvs_from(hex, 0).len(),
        forall|i: int|
            k < i < tlvs_from(hex, 0).len() ==> {
                let t = #[trigger] tlvs_from(hex, 0)[i];
                !(t.tlv_type == 0x00 && t.value.len() == 3 && t.value[1] is Some
                    && t.value[2] is Some)
            },
        k >= 0 ==> {
            let t = tlvs_from(hex, 0)[k];
            t.tlv_type == 0x00 && t.value.len() == 3 && t.value[1] is Some && t.value[2] is Some
        },
    ensures
        dataset_of(hex).channel == if k < 0 {
            None
        } else {
            tlvs_from(hex, 0)[k].value[2]
        },
{
    let tlvs = tlvs_from(hex, 0);
    if k < 0 {
        lemma_unwritten_fields_stay(empty_dataset(), tlvs);
    } else {
        let before = lemma_split_at(hex, k);
        let after = apply_tlv(before, tlvs[k]);
        law_record_writes_its_field(before, tlvs[k]);
        let back = tlvs.skip(k + 1);
        assert forall|i: int| 0 <= i < back.len() implies !writes_channel(#[trigger] back[i]) by {
            assert(back[i] == tlvs[k + 1 + i]);
        }
        lemma_unwritten_fields_stay(after, back);
    }
}

/// The PAN ID that a text describes is that of the last record of type 1 with
/// two bytes, and unknown if that record does not write both or if there is
/// none: `k` is the number of that record, or -1.
pub proof fn law_last_pan_id_counts(hex: Seq<u8>, k: int)
    requires
        -1 <= k < tlvs_from(hex, 0).len(),
        forall|i: int|
            k < i < tlvs_from(hex, 0).len() ==> {
                let t = #[trigger] tlvs_from(hex, 0)[i];
                !(t.tlv_type == 0x01 && t.value.len() == 2)
            },
        k >= 0 ==> tlvs_from(hex, 0)[k].tlv_type == 0x01 && tlvs_from(hex, 0)[k].value.len() == 2,
    ensures
        match dataset_of(hex).pan_id {
            Some(p) => k >= 0 && tlvs_from(hex, 0)[k].value =~= seq![
                Some((p / 256) as u8),
                Some((p % 256) as u8),
            ],
            None => k < 0 || tlvs_from(hex, 0)[k].value[0] is None || tlvs_from(
                hex,
                0,
            )[k].value[1] is None,
        },
{
    let tlvs = tlvs_from(hex, 0);
    if k < 0 {
        lemma_unwritten_fields_stay(empty_dataset(), tlvs);
    } else {
        let before = lemma_split_at(hex, k);
        let after = apply_tlv(before, tlvs[k]);
        law_record_writes_its_field(before, tlvs[k]);
        let back = tlvs.skip(k + 1);
        assert forall|i: int| 0 <= i < back.len() implies !writes_pan_id(#[trigger] back[i]) by {
            assert(back[i] == tlvs[k + 1 + i]);
        }
        lemma_unwritten_fields_stay(after, back);
    }
}

/// The extended PAN ID that a text describes is the value of the last record of
/// type 2 that has eight bytes, all of them written, or unknown if there is
/// none: `k` is the number of that record, or -1.
pub proof fn law_last_ext_pan_id_counts(hex: Seq<u8>, k: int)
    requires
        -1 <= k < tlvs_from(hex, 0).len(),
        forall|i: int|
            k < i < tlvs_from(hex, 0).len() ==> {
                let t = #[trigger] tlvs_from(hex, 0)[i];
                !(t.tlv_type == 0x02 && t.value.len() == 8 && forall|j: int|
                    0 <= j < 8 ==> (#[trigger] t.value[j]) is Some)
            },
        k >= 0 ==> {
            let t = tlvs_from(hex, 0)[k];
            t.tlv_type == 0x02 && t.value.len() == 8 && forall|j: int|
                0 <= j < 8 ==> (#[trigger] t.value[j]) is Some
        },
    ensures
        match dataset_of(hex).ext_pan_id {
            Some(id) => k >= 0 && id.map_values(|b: u8| Some(b)) == tlvs_from(hex, 0)[k].value,
            None => k < 0,
        },
{
    let tlvs = tlvs_from(hex, 0);
    if k < 0 {
        lemma_unwritten_fields_stay(empty_dataset(), tlvs);
    } else {
        let before = lemma_split_at(hex, k);
        let after = apply_tlv(before, tlvs[k]);
        law_record_writes_its_field(before, tlvs[k]);
        let back = tlvs.skip(k + 1);
        assert forall|i: int| 0 <= i < back.len() implies !writes_bytes(
            #[trigger] back[i],
            0x02,
            8,
        ) by {
            assert(back[i] == tlvs[k + 1 + i]);
        }
        lemma_unwritten_fields_stay(after, back);
    }
}

/// The network key that a text describes is the value of the last record of type
/// 5 that has sixteen bytes, all of them written, or unknown if there is none:
/// `k` is the number of that record, or -1.
pub proof fn law_last_network_key_counts(hex: Seq<u8>, k: int)
    requires
        -1 <= k < tlvs_from(hex, 0).len(),
        forall|i: int|
            k < i < tlvs_from(hex, 0).len() ==> {
                let t = #[trigger] tlvs_from(hex, 0)[i];
                !(t.tlv_type == 0x05 && t.value.len() == 16 && forall|j: int|
                    0 <= j < 16 ==> (#[trigger] t.value[j]) is Some)
            },
        k >= 0 ==> {
            let t = tlvs_from(hex, 0)[k];
            t.tlv_type == 0x05 && t.value.len() == 16 && forall|j: int|
                0 <= j < 16 ==> (#[trigger] t.value[j]) is Some
        },
    ensures
        match dataset_of(hex).network_key {
            Some(key) => k >= 0 && key.map_values(|b: u8| Some(b)) == tlvs_from(hex, 0)[k].value,
            None => k < 0,
        },
{
    let tlvs = tlvs_from(hex, 0);
    if k < 0 {
        lemma_unwritten_fields_stay(empty_dataset(), tlvs);
    } else {
        let before = lemma_split_at(hex, k);
        let after = apply_tlv(before, tlvs[k]);
        law_record_writes_its_field(before, tlvs[k]);
        let back = tlvs.skip(k + 1);
        assert forall|i: int| 0 <= i < back.len() implies !writes_bytes(
            #[trigger] back[i],
            0x05,
            16,
        ) by {
            assert(back[i] == tlvs[k + 1 + i]);
        }
        lemma_unwritten_fields_stay(after, back);
    }
}

/// The name that a text describes is spelled by the last record of type 3, or
/// empty if there is none: `k` is the number of that record, or -1.
pub proof fn law_last_name_counts(hex: Seq<u8>, k: int)
    requires
        -1 <= k < tlvs_from(hex, 0).len(),
        forall|i: int|
            k < i < tlvs_from(hex, 0).len() ==> (#[trigger] tlvs_from(hex, 0)[i]).tlv_type != 0x03,
        k >= 0 ==> tlvs_from(hex, 0)[k].tlv_type == 0x03,
    ensures
        dataset_of(hex).network_name.bytes.len() == 32,
        forall|i: int|
            0 <= i < 32 ==> #[trigger] dataset_of(hex).network_name.bytes[i] == if k >= 0 && i
                < tlvs_from(hex, 0)[k].value.len() && tlvs_from(hex, 0)[k].value[i] is Some {
                tlvs_from(hex, 0)[k].value[i].unwrap()
            } else {
                0
            },
        k < 0 ==> dataset_of(hex).network_name.len == 0,
        k >= 0 ==> {
            let v = tlvs_from(hex, 0)[k].value;
            dataset_of(hex).network_name.len == v.take(
                if v.len() < 32 {
                    v.len() as int
                } else {
                    32
                },
            ).filter(|b: Option<u8>| b is Some).len()
        },
{
    let tlvs = tlvs_from(hex, 0);
    if k < 0 {
        lemma_unwritten_fields_stay(empty_dataset(), tlvs);
    } else {
        let before = lemma_split_at(hex, k);
        let after = apply_tlv(before, tlvs[k]);
        law_record_writes_its_field(before, tlvs[k]);
        let back = tlvs.skip(k + 1);
        assert forall|i: int| 0 <= i < back.len() implies (#[trigger] back[i]).tlv_type != 0x03 by {
            assert(back[i] == tlvs[k + 1 + i]);
        }
        lemma_unwritten_fields_stay(after, back);
    }
}

/// The text of a record is two digits for its type, two for its length and two
/// for each byte of its value, and the text of a run is the texts of its
/// records, one after the other.
pub proof fn law_records_are_written_in_digits(tlv: RawTlv, a: Seq<RawTlv>, b: Seq<RawTlv>)
    requires
        tlv.value.len() <= 255,
    ensures
        encode_tlv(tlv).len() == 4 + 2 * tlv.value.len(),
        byte_at(encode_tlv(tlv), 0) == Some(tlv.tlv_type),
        byte_at(encode_tlv(tlv), 2) == Some(tlv.value.len() as u8),
        forall|k: int|
            0 <= k < tlv.value.len() ==> byte_at(encode_tlv(tlv), 4 + 2 * k) == Some(
                #[trigger] tlv.value[k],
            ),
        encode_tlvs(seq![tlv]) == encode_tlv(tlv),
        encode_tlvs(a + b) == encode_tlvs(a) + encode_tlvs(b),
    decreases a.len(),
{
    let none = Seq::<u8>::empty();
    let raw = seq![tlv.tlv_type, tlv.value.len() as u8] + tlv.value;
    assert(encode_tlv(tlv) + none =~= encode_tlv(tlv));
    lemma_byte_at_encoded(raw, none, 0);
    lemma_byte_at_encoded(raw, none, 1);
    assert forall|k: int| 0 <= k < tlv.value.len() implies byte_at(encode_tlv(tlv), 4 + 2 * k)
        == Some(#[trigger] tlv.value[k]) by {
        lemma_byte_at_encoded(raw, none, k + 2);
        assert(raw[k + 2] == tlv.value[k]);
    }
    assert(seq![tlv].drop_first() =~= Seq::<RawTlv>::empty());
    assert(encode_tlvs(Seq::<RawTlv>::empty()) =~= none);
    if a.len() == 0 {
        assert(a + b =~= b);
        assert(encode_tlvs(a) + encode_tlvs(b) =~= encode_tlvs(b));
    } else {
        law_records_are_written_in_digits(tlv, a.drop_first(), b);
        assert((a + b).drop_first() =~= a.drop_first() + b);
        assert(encode_tlvs(a + b) =~= encode_tlvs(a) + encode_tlvs(b));
    }
}

/// A text of records, however many, describes what all of them make of an empty
/// dataset, also if something that is no record follows them.
pub proof fn law_all_records_count(tlvs: Seq<RawTlv>, rest: Seq<u8>)
    requires
        encodable(tlvs),
        tlvs_from(rest, 0).len() == 0,
    ensures
        dataset_of(encode_tlvs(tlvs) + rest) == apply_all(
            empty_dataset(),
            tlvs.map_values(|t: RawTlv| as_read(t)),
        ),
{
    let read = |t: RawTlv| as_read(t);
    law_records_read_back(tlvs, rest);
    assert(tlvs.map_values(read) + tlvs_from(rest, 0) =~= tlvs.map_values(read));
}

/// One more record at the end of a text acts on what the text describes.
pub proof fn law_appended_record_acts_last(tlvs: Seq<RawTlv>, tlv: RawTlv)
    requires
        encodable(tlvs),
        tlv.value.len() <= 255,
    ensures
        dataset_of(encode_tlvs(tlvs.push(tlv))) == apply_tlv(
            dataset_of(encode_tlvs(tlvs)),
            as_read(tlv),
        ),
{
    let none = Seq::<u8>::empty();
    let read = |t: RawTlv| as_read(t);
    law_all_records_count(tlvs, none);
    law_all_records_count(tlvs.push(tlv), none);
    assert(encode_tlvs(tlvs) + none =~= encode_tlvs(tlvs));
    assert(encode_tlvs(tlvs.push(tlv)) + none =~= encode_tlvs(tlvs.push(tlv)));
    assert(tlvs.push(tlv).map_values(read) =~= tlvs.map_values(read).push(as_read(tlv)));
    law_later_record_acts_last(empty_dataset(), tlvs.map_values(read), as_read(tlv));
}

/// Records of other types than 0, 1, 2, 3 and 5, however many and wherever they
/// stand, do not change what a text describes.
pub proof fn law_text_without_unknown_records(tlvs: Seq<RawTlv>)
    requires
        encodable(tlvs),
    ensures
        encodable(tlvs.filter(|t: RawTlv| t.tlv_type <= 3 || t.tlv_type == 5)),
        dataset_of(encode_tlvs(tlvs)) == dataset_of(
            encode_tlvs(tlvs.filter(|t: RawTlv| t.tlv_type <= 3 || t.tlv_type == 5)),
        ),
    decreases tlvs.len(),
{
    reveal(Seq::filter);
    let known = |t: RawTlv| t.tlv_type <= 3 || t.tlv_type == 5;
    if tlvs.len() > 0 {
        let others = tlvs.drop_last();
        let last = tlvs.last();
        assert(tlvs =~= others.push(last));
        assert forall|i: int| 0 <= i < others.len() implies (#[trigger] others[i]).value.len()
            <= 255 by {
            assert(others[i] == tlvs[i]);
        }
        assert(tlvs[tlvs.len() - 1].value.len() <= 255);
        law_text_without_unknown_records(others);
        law_appended_record_acts_last(others, last);
        if known(last) {
            law_appended_record_acts_last(others.filter(known), last);
        }
    }
}

/// Texts with the same records, no two of the same type, describe the same,
/// whatever the order of the records.
pub proof fn law_text_order_is_irrelevant(a: Seq<u8>, b: Seq<u8>)
    requires
        tlvs_from(a, 0).to_multiset() == tlvs_from(b, 0).to_multiset(),
        forall|i: int, j: int|
            0 <= i < j < tlvs_from(a, 0).len() ==> (#[trigger] tlvs_from(a, 0)[i]).tlv_type != (
            #[trigger] tlvs_from(a, 0)[j]).tlv_type,
    ensures
        dataset_of(a) == dataset_of(b),
{
    law_order_is_irrelevant(empty_dataset(), tlvs_from(a, 0), tlvs_from(b, 0));
}

/// A report tells each field as it is known, the channel 15 and the PAN ID
/// 0x06e6 where none is known, and no name where that is empty.
pub proof fn law_report_tells_dataset(d: DatasetModel)
    ensures
        d.channel matches Some(c) ==> report_of(d).channel == c,
        d.channel is None ==> report_of(d).channel == 15,
        d.pan_id matches Some(p) ==> report_of(d).pan_id == p,
        d.pan_id is None ==> report_of(d).pan_id == 0x06e6,
        report_of(d).ext_pan_id == d.ext_pan_id,
        report_of(d).network_key_present <==> d.network_key is Some,
        match report_of(d).network_name {
            Some(name) => d.network_name.len > 0 && name == d.network_name.bytes.take(
                d.network_name.len as int,
            ),
            None => d.network_name.len == 0,
        },
{
}

/// A report does not tell the network key: whatever the key is, the report of
/// the dataset is the same.
pub proof fn law_report_hides_network_key(d: DatasetModel, a: Seq<u8>, b: Seq<u8>)
    ensures
        report_of(DatasetModel { network_key: Some(a), ..d }) == report_of(
            DatasetModel { network_key: Some(b), ..d },
        ),
{
}

/// A text that is too short for a record tells nothing: the node listens on the
/// default channel with the default PAN ID and has no network key.
pub proof fn law_short_text_tells_nothing(hex: Seq<u8>)
    requires
        hex.len() < 4,
    ensures
        dataset_of(hex) == empty_dataset(),
        report_of(dataset_of(hex)).channel == DEFAULT_CHANNEL,
        report_of(dataset_of(hex)).pan_id == DEFAULT_PAN_ID,
        dataset_of(hex).network_key is None,
{
}

} // verus!
