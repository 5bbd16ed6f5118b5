//! The two XOR keystreams of the archive format.
//!
//! Both streams are their own inverse: applying one twice with the same
//! `(key, index)` gives the input back. They obfuscate; they protect nothing.
use vstd::prelude::*;

verus! {

/// Multiplier of the table-entry mask.
pub const TABLE_FACTOR: u64 = 765;

/// Multiplier that seeds the body keystream from the message index.
pub const BODY_FACTOR: u64 = 596947;

/// Amount by which the body key advances after each code unit.
pub const BODY_STEP: u16 = 18749;

/// The 16-bit value `(765 * index * key) mod 65536` from which a table mask is made.
pub open spec fn spec_local_key(index: int, key: u16) -> u16 {
    ((765 * index * key) % 65536) as u16
}

/// The 32-bit mask of the table entry at 1-based position `index`:
/// the local key in both halves.
pub open spec fn spec_table_mask(index: int, key: u16) -> u32 {
    (spec_local_key(index, key) as u32) | ((spec_local_key(index, key) as u32) << 16)
}

/// The body key that meets the code unit at 0-based position `n` of the
/// message with 1-based index `index`.
pub open spec fn spec_body_key(index: u16, n: int) -> u16 {
    ((index * 596947 + n * 18749) % 65536) as u16
}

/// A code sequence with every unit XORed with its body key.
pub open spec fn spec_crypt(codes: Seq<u16>, index: u16) -> Seq<u16> {
    Seq::new(codes.len(), |n: int| codes[n] ^ spec_body_key(index, n))
}

/// Computes the mask of the table entry at 1-based position `index`.
pub fn table_mask(index: u16, key: u16) -> (mask: u32)
    ensures
        mask == spec_table_mask(index as int, key),
{
    assert(765 * (index as int) * (key as int) <= 765 * 65535 * 65535) by (nonlinear_arith)
        requires
            0 <= index <= 65535,
            0 <= key <= 65535,
    ;
    assert(0 <= 765 * (index as int) * (key as int)) by (nonlinear_arith)
        requires
            0 <= index,
            0 <= key,
    ;
    let by_index: u64 = TABLE_FACTOR * (index as u64);
    let product: u64 = by_index * (key as u64);
    let local: u32 = (product % 65536) as u32;
    local | (local << 16)
}

/// XORs every code unit with the body keystream of message `index`.
/// Encryption and decryption are this same function.
pub fn crypt(codes: &[u16], index: u16) -> (out: Vec<u16>)
    ensures
        out@ == spec_crypt(codes@, index),
{
    let mut out: Vec<u16> = Vec::with_capacity(codes.len());
    let mut current_key: u16 = (((index as u64) * BODY_FACTOR) % 65536) as u16;
    let mut n: usize = 0;
    while n < codes.len()
        invariant
            n <= codes.len(),
            out.len() == n,
            current_key == spec_body_key(index, n as int),
            forall|j: int| 0 <= j < n ==> out[j] == codes[j] ^ spec_body_key(index, j),
        decreases codes.len() - n,
    {
        proof {
            lemma_body_key_step(index, n as int);
        }
        out.push(codes[n] ^ current_key);
        current_key = current_key.wrapping_add(BODY_STEP);
        n += 1;
    }
    out
}

/// The key of the next code unit is the key of this one advanced by
/// `18749`, wrapping at 16 bits.
pub proof fn lemma_body_key_step(index: u16, n: int)
    requires
        0 <= n,
    ensures
        spec_body_key(index, n + 1) as int == (spec_body_key(index, n) + 18749) % 65536,
{
    let a = index * 596947 + n * 18749;
    assert(a + 18749 == index * 596947 + (n + 1) * 18749);
    vstd::arithmetic::div_mod::lemma_add_mod_noop(a, 18749, 65536);
    assert(18749int % 65536 == 18749);
}

/// Masking a 32-bit table field twice with the same mask gives the field back.
pub proof fn lemma_mask_involutive(field: u32, index: int, key: u16)
    ensures
        (field ^ spec_table_mask(index, key)) ^ spec_table_mask(index, key) == field,
{
    let mask = spec_table_mask(index, key);
    assert((field ^ mask) ^ mask == field) by (bit_vector);
}

/// The body keystream is its own inverse: decrypting what was encrypted
/// under the same message index gives the code units back.
pub proof fn lemma_crypt_involutive(codes: Seq<u16>, index: u16)
    ensures
        spec_crypt(spec_crypt(codes, index), index) == codes,
{
    let once = spec_crypt(codes, index);
    let twice = spec_crypt(once, index);
    assert forall|n: int| 0 <= n < codes.len() implies twice[n] == codes[n] by {
        let k = spec_body_key(index, n);
        let c = codes[n];
        assert((c ^ k) ^ k == c) by (bit_vector);
    }
    assert(twice =~= codes);
}

} // verus!
