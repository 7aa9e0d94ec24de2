//! The key material of a Thread network.

use vstd::prelude::*;

use hmac::Mac;

use crate::bytes::{be_bytes, lemma_bytes_determine, lemma_same_number, u32_be_bytes};
use crate::dataset::{ActiveDataset, DatasetModel};

verus! {

/// The keys that belong to one key sequence of a network.
#[derive(Clone, Copy)]
pub struct ThreadKeyMaterial {
    pub key_sequence: u32,
    pub key_id: u8,
    pub mle_key: [u8; 16],
    pub mac_key: [u8; 16],
}

/// Key material as a value.
#[verifier::ext_equal]
pub ghost struct KeyModel {
    pub key_sequence: u32,
    pub key_id: u8,
    pub mle_key: Seq<u8>,
    pub mac_key: Seq<u8>,
}

impl View for ThreadKeyMaterial {
    type V = KeyModel;

    open spec fn view(&self) -> KeyModel {
        KeyModel {
            key_sequence: self.key_sequence,
            key_id: self.key_id,
            mle_key: self.mle_key@,
            mac_key: self.mac_key@,
        }
    }
}

/// The HMAC-SHA256 tag of `message` under `key`.
pub uninterp spec fn hmac_sha256_tag(key: Seq<u8>, message: Seq<u8>) -> Seq<u8>;

/// Calls `hmac::Hmac::<sha2::Sha256>`: `new_from_slice`, one `update` with the
/// whole message, `finalize`.
///
/// Claimed of it: it takes a key of any length, so that there always is a tag,
/// and the tag is determined by the key and the message.
#[verifier::external_body]
fn hmac_sha256(key: &[u8], message: &[u8]) -> (tag: Option<[u8; 32]>)
    ensures
        tag is Some,
        tag.unwrap()@ == hmac_sha256_tag(key@, message@),
{
    let mut mac = <hmac::Hmac<sha2::Sha256> as Mac>::new_from_slice(key).ok()?;
    mac.update(message);
    Some(mac.finalize().into_bytes().into())
}

/// The identifier of the key of a sequence: 1 to 128, in turn.
pub open spec fn key_id_of(key_sequence: u32) -> u8 {
    (key_sequence % 128 + 1) as u8
}

/// The message whose tag holds the keys of a sequence: its number and the
/// word `Thread`.
pub open spec fn key_message(key_sequence: u32) -> Seq<u8> {
    be_bytes(key_sequence) + seq![0x54u8, 0x68, 0x72, 0x65, 0x61, 0x64]
}

/// The keys that the tag of a sequence holds: the MLE key, then the MAC key.
pub open spec fn material_of(hash: Seq<u8>, key_sequence: u32) -> KeyModel {
    KeyModel {
        key_sequence,
        key_id: key_id_of(key_sequence),
        mle_key: hash.subrange(0, 16),
        mac_key: hash.subrange(16, 32),
    }
}

/// The keys of a sequence in the network that `d` describes.
pub open spec fn derived_keys(d: DatasetModel, key_sequence: u32) -> Option<KeyModel> {
    match d.network_key {
        Some(key) => Some(
            material_of(hmac_sha256_tag(key, key_message(key_sequence)), key_sequence),
        ),
        None => None,
    }
}

/// Takes the keys of a sequence out of its tag.
pub fn split_key_material(hash: &[u8; 32], key_sequence: u32) -> (keys: ThreadKeyMaterial)
    ensures
        keys@ == material_of(hash@, key_sequence),
        keys.key_sequence == key_sequence,
        1 <= keys.key_id <= 128,
        (keys.key_id - 1 - key_sequence) % 128 == 0,
        keys.mle_key@ + keys.mac_key@ == hash@,
{
    let mut mle_key = [0u8; 16];
    let mut mac_key = [0u8; 16];
    let mut i: usize = 0;
    while i < 16
        invariant
            i <= 16,
            forall|k: int| 0 <= k < i ==> #[trigger] mle_key@[k] == hash@[k],
            forall|k: int| 0 <= k < i ==> #[trigger] mac_key@[k] == hash@[16 + k],
        decreases 16 - i,
    {
        mle_key[i] = hash[i];
        mac_key[i] = hash[16 + i];
        i = i + 1;
    }
    assert(mle_key@ =~= hash@.subrange(0, 16));
    assert(mac_key@ =~= hash@.subrange(16, 32));
    assert(mle_key@ + mac_key@ =~= hash@);
    assert(key_sequence & 0x7f == key_sequence % 128) by (bit_vector);
    ThreadKeyMaterial {
        key_sequence,
        key_id: ((key_sequence & 0x7f) as u8).wrapping_add(1),
        mle_key,
        mac_key,
    }
}

/// Derives the keys of a sequence, if the network key is known.
pub fn derive_thread_key_material(dataset: &ActiveDataset, key_sequence: u32) -> (keys: Option<
    ThreadKeyMaterial,
>)
    ensures
        keys is Some <==> dataset@.network_key is Some,
        keys matches Some(k) ==> derived_keys(dataset@, key_sequence) == Some(k@),
        keys matches Some(k) ==> {
            let tag = hmac_sha256_tag(dataset@.network_key.unwrap(), key_message(key_sequence));
            tag.len() == 32 && k@.mle_key + k@.mac_key == tag
        },
        keys is Some <==> dataset.network_key is Some,
        keys matches Some(k) ==> {
            &&& k.key_sequence == key_sequence
            &&& 1 <= k.key_id <= 128
            &&& (k.key_id - 1 - key_sequence) % 128 == 0
            &&& k.mle_key@ + k.mac_key@ == hmac_sha256_tag(
                dataset.network_key.unwrap()@,
                key_message(key_sequence),
            )
        },
{
    let network_key = dataset.network_key?;
    let number = u32_be_bytes(key_sequence);
    let message: [u8; 10] = [
        number[0],
        number[1],
        number[2],
        number[3],
        0x54,
        0x68,
        0x72,
        0x65,
        0x61,
        0x64,
    ];
    assert(message@ =~= key_message(key_sequence));
    let hash = hmac_sha256(&network_key, &message)?;
    proof {
        law_keys_cover_tag(hash@, key_sequence);
    }
    Some(split_key_material(&hash, key_sequence))
}

/// Key identifiers are 1 to 128. Sequences share one exactly if they are a
/// multiple of 128 apart.
pub proof fn law_key_ids_cycle(a: u32, b: u32)
    ensures
        1 <= key_id_of(a) <= 128,
        key_id_of(a) == key_id_of(b) <==> (a - b) % 128 == 0,
{
}

/// Key identifiers count with the sequences, from 1 for sequence 0.
pub proof fn law_key_id_counts(key_sequence: u32)
    ensures
        1 <= key_id_of(key_sequence) <= 128,
        (key_id_of(key_sequence) - 1 - key_sequence) % 128 == 0,
{
}

/// The message of a sequence is ten bytes: the number of the sequence, with the
/// highest byte first, and the letters `T`, `h`, `r`, `e`, `a`, `d`.
pub proof fn law_message_tells_sequence(key_sequence: u32)
    ensures
        ({
            let m = key_message(key_sequence);
            &&& m.len() == 10
            &&& m[0] * 0x100_0000 + m[1] * 0x1_0000 + m[2] * 0x100 + m[3] == key_sequence
            &&& m[4] == 0x54 && m[5] == 0x68 && m[6] == 0x72
            &&& m[7] == 0x65 && m[8] == 0x61 && m[9] == 0x64
        }),
{
    lemma_bytes_determine(key_sequence);
    let m = key_message(key_sequence);
    assert forall|i: int| 0 <= i < 4 implies #[trigger] m[i] == be_bytes(key_sequence)[i] by {}
}

/// The keys of a sequence are the two halves of the tag, under the network key,
/// of the ten bytes that write the number of the sequence and `Thread`.
pub proof fn law_keys_are_halves_of_tag(
    d: DatasetModel,
    key: Seq<u8>,
    key_sequence: u32,
    m: Seq<u8>,
)
    requires
        d.network_key == Some(key),
        m.len() == 10,
        m[0] * 0x100_0000 + m[1] * 0x1_0000 + m[2] * 0x100 + m[3] == key_sequence,
        m[4] == 0x54 && m[5] == 0x68 && m[6] == 0x72,
        m[7] == 0x65 && m[8] == 0x61 && m[9] == 0x64,
    ensures
        derived_keys(d, key_sequence) matches Some(k) && {
            &&& k.key_sequence == key_sequence
            &&& 1 <= k.key_id <= 128
            &&& (k.key_id - 1 - key_sequence) % 128 == 0
            &&& k.mle_key == hmac_sha256_tag(key, m).subrange(0, 16)
            &&& k.mac_key == hmac_sha256_tag(key, m).subrange(16, 32)
        },
{
    law_message_tells_sequence(key_sequence);
    let n = key_message(key_sequence);
    lemma_same_number(m[0], m[1], m[2], m[3], n[0], n[1], n[2], n[3]);
    assert(m =~= n);
}

/// Without a network key there are no keys.
pub proof fn law_no_network_key_no_keys(d: DatasetModel, key_sequence: u32)
    requires
        d.network_key is None,
    ensures
        derived_keys(d, key_sequence) is None,
{
}

/// The two keys of a sequence are, one after the other, the whole tag.
pub proof fn law_keys_cover_tag(hash: Seq<u8>, key_sequence: u32)
    requires
        hash.len() == 32,
    ensures
        material_of(hash, key_sequence).mle_key + material_of(hash, key_sequence).mac_key == hash,
        material_of(hash, key_sequence).mle_key.len() == 16,
        material_of(hash, key_sequence).key_sequence == key_sequence,
{
    assert(hash.subrange(0, 16) + hash.subrange(16, 32) =~= hash);
}

/// No two sequences have their keys from the same message.
pub proof fn law_sequences_have_own_message(a: u32, b: u32)
    requires
        key_message(a) == key_message(b),
    ensures
        a == b,
{
    lemma_bytes_determine(a);
    lemma_bytes_determine(b);
    assert forall|i: int| 0 <= i < 4 implies be_bytes(a)[i] == be_bytes(b)[i] by {
        assert(key_message(a)[i] == be_bytes(a)[i]);
        assert(key_message(b)[i] == be_bytes(b)[i]);
    }
}

/// Of a dataset, the keys depend on the network key alone.
pub proof fn law_keys_depend_on_network_key(a: DatasetModel, b: DatasetModel, key_sequence: u32)
    requires
        a.network_key == b.network_key,
    ensures
        derived_keys(a, key_sequence) == derived_keys(b, key_sequence),
{
}

} // verus!
