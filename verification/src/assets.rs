use vstd::prelude::*;

verus! {

/// The eight bytes that open every PNG file.
pub open spec fn png_signature() -> Seq<u8> {
    seq![0x89u8, 0x50u8, 0x4Eu8, 0x47u8, 0x0Du8, 0x0Au8, 0x1Au8, 0x0Au8]
}

/// Whether `bytes` opens with the PNG signature, so that a download that returned an
/// HTML page or an error message instead of an image is not stored as a texture.
pub fn has_png_signature(bytes: &[u8]) -> (b: bool)
    ensures
        b == (bytes@.len() >= 8 && bytes@.subrange(0, 8) == png_signature()),
{
    let sig: [u8; 8] = [0x89, 0x50, 0x4E, 0x47, 0x0D, 0x0A, 0x1A, 0x0A];
    assert(sig@ == png_signature());
    if bytes.len() < 8 {
        return false;
    }
    let mut k: usize = 0;
    while k < 8
        invariant
            k <= 8,
            bytes@.len() >= 8,
            sig@ == png_signature(),
            forall|j: int| 0 <= j < k ==> #[trigger] bytes@[j] == sig@[j],
        decreases 8 - k,
    {
        if bytes[k] != sig[k] {
            assert(bytes@.subrange(0, 8)[k as int] != png_signature()[k as int]);
            return false;
        }
        k += 1;
    }
    assert(bytes@.subrange(0, 8) =~= png_signature());
    true
}

} // verus!
