//! Payload masking: repeating XOR of a 4-byte key over the data.

use vstd::prelude::*;

verus! {

/// The four bytes of a mask key, most significant first.
pub open spec fn key_bytes(mask: u32) -> Seq<u8> {
    Seq::empty().push(((mask >> 24) & 0xff) as u8).push(((mask >> 16) & 0xff) as u8).push(
        ((mask >> 8) & 0xff) as u8,
    ).push((mask & 0xff) as u8)
}

/// `data` masked with `key`: byte `i` is XORed with key byte `i mod 4`.
pub open spec fn mask_with(data: Seq<u8>, key: Seq<u8>) -> Seq<u8>
    recommends
        key.len() == 4,
{
    Seq::new(data.len(), |i: int| data[i] ^ key[i % 4])
}

/// Masking is an involution: masking twice with the same key gives the
/// data back. This holds for every byte sequence, the empty one included.
pub proof fn lemma_mask_involution(data: Seq<u8>, key: Seq<u8>)
    requires
        key.len() == 4,
    ensures
        mask_with(mask_with(data, key), key) == data,
{
    assert forall|i: int| 0 <= i < data.len() implies mask_with(mask_with(data, key), key)[i]
        == data[i] by {
        let k = key[i % 4];
        let d = data[i];
        assert((d ^ k) ^ k == d) by (bit_vector);
    }
    assert(mask_with(mask_with(data, key), key) =~= data);
}

/// Apply the mask key to `data`. Decoding uses this to unmask a payload,
/// encoding to mask one; the two are the same operation.
pub fn apply_mask(data: &Vec<u8>, mask: u32) -> (r: Vec<u8>)
    ensures
        r@ == mask_with(data@, key_bytes(mask)),
{
    let k0: u8 = ((mask >> 24) & 0xff) as u8;
    let k1: u8 = ((mask >> 16) & 0xff) as u8;
    let k2: u8 = ((mask >> 8) & 0xff) as u8;
    let k3: u8 = (mask & 0xff) as u8;
    let mut out: Vec<u8> = Vec::new();
    let mut i: usize = 0;
    while i < data.len()
        invariant
            i <= data.len(),
            out@.len() == i,
            k0 == key_bytes(mask)[0],
            k1 == key_bytes(mask)[1],
            k2 == key_bytes(mask)[2],
            k3 == key_bytes(mask)[3],
            forall|j: int| 0 <= j < i ==> out@[j] == data@[j] ^ key_bytes(mask)[j % 4],
        decreases data.len() - i,
    {
        let m: usize = i % 4;
        let k: u8 = if m == 0 {
            k0
        } else if m == 1 {
            k1
        } else if m == 2 {
            k2
        } else {
            k3
        };
        proof {
            assert(0 <= m < 4) by (nonlinear_arith)
                requires
                    m == i % 4,
                    i >= 0,
            ;
            assert(k == key_bytes(mask)[i as int % 4]);
        }
        out.push(data[i] ^ k);
        i = i + 1;
    }
    assert(out@ =~= mask_with(data@, key_bytes(mask)));
    out
}

} // verus!
