//! The repeating-key exclusive-or that hides cached account files.

use vstd::prelude::*;

verus! {

/// `data` with every byte combined with the byte of `key` that falls on it when
/// the key is repeated; an empty key changes nothing.
pub open spec fn xored(data: Seq<u8>, key: Seq<u8>) -> Seq<u8> {
    if key.len() == 0 {
        data
    } else {
        Seq::new(data.len(), |i: int| data[i] ^ key[i % (key.len() as int)])
    }
}

/// Applies the repeating key to the bytes.
pub fn decrypt_bytes(encrypted_bytes: &[u8], key_bytes: &[u8]) -> (res: Vec<u8>)
    ensures
        res@ == xored(encrypted_bytes@, key_bytes@),
        res@.len() == encrypted_bytes@.len(),
        key_bytes@.len() == 0 ==> res@ == encrypted_bytes@,
        key_bytes@.len() > 0 ==> forall|i: int|
            0 <= i < res@.len() ==> #[trigger] res@[i] == encrypted_bytes@[i] ^ key_bytes@[i % (
            key_bytes@.len() as int)],
{
    let mut decrypted_bytes: Vec<u8> = Vec::new();
    let n: usize = encrypted_bytes.len();
    let mut i: usize = 0;
    while i < n
        invariant
            n == encrypted_bytes@.len(),
            i <= n,
            decrypted_bytes@ == xored(encrypted_bytes@, key_bytes@).take(i as int),
        decreases n - i,
    {
        let byte: u8 = if key_bytes.len() == 0 {
            encrypted_bytes[i]
        } else {
            encrypted_bytes[i] ^ key_bytes[i % key_bytes.len()]
        };
        decrypted_bytes.push(byte);
        assert(xored(encrypted_bytes@, key_bytes@).take(i + 1) =~= xored(
            encrypted_bytes@,
            key_bytes@,
        ).take(i as int).push(byte));
        i = i + 1;
    }
    decrypted_bytes
}

/// Applying the same key twice gives the bytes back, whatever the key.
pub proof fn law_decrypt_undoes_itself(data: Seq<u8>, key: Seq<u8>)
    ensures
        xored(xored(data, key), key) == data,
{
    if key.len() > 0 {
        assert forall|i: int| 0 <= i < data.len() implies #[trigger] xored(
            xored(data, key),
            key,
        )[i] == data[i] by {
            let a: u8 = data[i];
            let b: u8 = key[i % (key.len() as int)];
            assert((a ^ b) ^ b == a) by (bit_vector);
        }
        assert(xored(xored(data, key), key) =~= data);
    }
}

/// From the first byte to the last, what comes out differs from what went in by the
/// byte of the key that falls there when the key is repeated.
pub proof fn law_key_is_repeated_to_the_end(data: Seq<u8>, key: Seq<u8>)
    requires
        key.len() > 0,
    ensures
        xored(data, key).len() == data.len(),
        forall|i: int|
            0 <= i < data.len() ==> (#[trigger] xored(data, key)[i]) ^ data[i] == key[i % (
            key.len() as int)],
{
    assert forall|i: int| 0 <= i < data.len() implies (#[trigger] xored(data, key)[i]) ^ data[i]
        == key[i % (key.len() as int)] by {
        let a: u8 = data[i];
        let b: u8 = key[i % (key.len() as int)];
        assert((a ^ b) ^ a == b) by (bit_vector);
    }
}

/// Zero bytes, however many, come out as the key, repeated over all of them.
pub proof fn law_zeros_show_the_key(data: Seq<u8>, key: Seq<u8>)
    requires
        key.len() > 0,
        forall|i: int| 0 <= i < data.len() ==> #[trigger] data[i] == 0,
    ensures
        xored(data, key) == Seq::new(data.len(), |i: int| key[i % (key.len() as int)]),
{
    assert forall|i: int| 0 <= i < data.len() implies #[trigger] xored(data, key)[i] == key[i % (
    key.len() as int)] by {
        assert(data[i] == 0);
        let b: u8 = key[i % (key.len() as int)];
        assert(0u8 ^ b == b) by (bit_vector);
    }
    assert(xored(data, key) =~= Seq::new(data.len(), |i: int| key[i % (key.len() as int)]));
}

/// No key leaves the bytes as they are.
pub proof fn law_no_key_changes_nothing(data: Seq<u8>)
    ensures
        xored(data, Seq::empty()) == data,
{
}

} // verus!
