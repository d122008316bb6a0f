//! Payload masking: a client masks each payload byte with the masking key
//! of its frame header, byte `i` with key byte `i % 4`.
use vstd::prelude::*;

use crate::big_endian::be_bytes;
use crate::frame::WebSocketHeader;

verus! {

/// `data` with byte `i` XORed with key byte `i % 4`.
pub open spec fn masked(data: Seq<u8>, key: Seq<u8>) -> Seq<u8> {
    Seq::new(data.len(), |i: int| data[i] ^ key[i % 4])
}

/// Unmasks a payload of the frame whose header is given, in place.
pub fn unmask_payload(header: &WebSocketHeader, data: &mut Vec<u8>)
    requires
        old(data)@.len() == header@.payload_length,
    ensures
        final(data)@ == masked(old(data)@, be_bytes(header@.mask as nat, 4)),
{
    let mask = header.get_mask();
    let n = header.payload_length;
    let mut i: usize = 0;
    while (i as u64) < n
        invariant
            data@.len() == old(data)@.len() == n,
            i <= n,
            forall|j: int|
                0 <= j < i ==> data@[j] == #[trigger] old(data)@[j] ^ mask@[j % 4],
            forall|j: int| i <= j < data@.len() ==> data@[j] == old(data)@[j],
        decreases n - i,
    {
        let j = i % 4;
        let b = data[i] ^ mask[j];
        data.set(i, b);
        i = i + 1;
    }
    assert(data@ =~= masked(old(data)@, mask@));
}

/// Masking is undone by masking again with the same key.
pub proof fn law_unmask_twice(data: Seq<u8>, key: Seq<u8>)
    requires
        key.len() == 4,
    ensures
        masked(masked(data, key), key) == data,
{
    assert forall|i: int| 0 <= i < data.len() implies masked(masked(data, key), key)[i]
        == data[i] by {
        let a = data[i];
        let k = key[i % 4];
        assert((a ^ k) ^ k == a) by (bit_vector);
    }
    assert(masked(masked(data, key), key) =~= data);
}

/// Unmasking XORs every byte of the payload, whatever its length, with the
/// key byte at its position modulo four; a byte changes exactly where its
/// key byte is not zero.
pub proof fn law_every_byte_unmasked(data: Seq<u8>, key: Seq<u8>)
    requires
        key.len() == 4,
    ensures
        masked(data, key).len() == data.len(),
        forall|i: int| 0 <= i < data.len() ==> #[trigger] masked(data, key)[i] == data[i] ^ key[i % 4],
        forall|i: int|
            0 <= i < data.len() ==> (#[trigger] masked(data, key)[i] != data[i] <==> key[i % 4]
                != 0),
{
    assert forall|i: int| 0 <= i < data.len() implies (#[trigger] masked(data, key)[i]
        != data[i] <==> key[i % 4] != 0) by {
        let a = data[i];
        let k = key[i % 4];
        assert((a ^ k != a) <==> k != 0) by (bit_vector);
    }
}

/// Masking a payload in two parts, the first a whole number of key lengths
/// long, is masking each part with the key from its start.
pub proof fn law_mask_splits(a: Seq<u8>, b: Seq<u8>, key: Seq<u8>)
    requires
        key.len() == 4,
        a.len() % 4 == 0,
    ensures
        masked(a + b, key) == masked(a, key) + masked(b, key),
{
    let left = masked(a + b, key);
    let right = masked(a, key) + masked(b, key);
    assert forall|i: int| 0 <= i < left.len() implies #[trigger] left[i] == right[i] by {
        if i >= a.len() {
            let n = a.len() as int;
            assert((i - n) % 4 == i % 4) by (nonlinear_arith)
                requires
                    n % 4 == 0,
                    i >= n,
            ;
        }
    }
    assert(masked(a + b, key) =~= masked(a, key) + masked(b, key));
}

} // verus!
