use vstd::prelude::*;

verus! {

/// What MurmurHash3 (x86, 32-bit variant) returns for `data` under `seed`.
pub uninterp spec fn murmur3_x86_32_of(data: Seq<u8>, seed: u32) -> u32;

/// Relies on `murmurhash3::murmurhash3_x86_32`: a pure function of the bytes and
/// the seed that returns for every short slice, here always four bytes.
#[verifier::external_body]
fn murmur3_32(data: &[u8; 4], seed: u32) -> (r: u32)
    ensures
        r == murmur3_x86_32_of(data@, seed),
{
    murmurhash3::murmurhash3_x86_32(data, seed)
}

/// Relies on `rand::random::<u32>`, which draws from the thread-local generator.
/// Nothing is known of the value drawn. That generator panics on first use if the
/// operating system cannot seed it, a condition no argument can rule out.
#[verifier::external_body]
pub(crate) fn random_seed() -> (r: u32) {
    rand::random::<u32>()
}

/// The four bytes, least significant first, of an item identifier taken modulo 2^32.
pub open spec fn item_bytes(item: usize) -> Seq<u8> {
    let x = (item as u32) as int;
    seq![
        (x % 256) as u8,
        ((x / 256) % 256) as u8,
        ((x / 65536) % 256) as u8,
        ((x / 16777216) % 256) as u8,
    ]
}

/// The hash of an item under a counter's seed.
pub open spec fn item_hash(seed: u32, item: usize) -> u32 {
    murmur3_x86_32_of(item_bytes(item), seed)
}

/// The encoding that `item_bytes` describes.
pub fn encode_item(item: usize) -> (r: [u8; 4])
    ensures
        r@ == item_bytes(item),
{
    let x: u32 = item as u32;
    let r: [u8; 4] = [
        (x % 256) as u8,
        ((x / 256) % 256) as u8,
        ((x / 65536) % 256) as u8,
        ((x / 16777216) % 256) as u8,
    ];
    assert(r@ =~= item_bytes(item));
    r
}

/// The hash of an item under a counter's seed.
pub fn hash_item(seed: u32, item: usize) -> (r: u32)
    ensures
        r == item_hash(seed, item),
{
    let data = encode_item(item);
    murmur3_32(&data, seed)
}

/// Hashes an encoded item under `seed`.
pub(crate) fn hash_encoded(seed: u32, data: &[u8; 4], item: Ghost<usize>) -> (r: u32)
    requires
        data@ == item_bytes(item@),
    ensures
        r == item_hash(seed, item@),
{
    murmur3_32(data, seed)
}

} // verus!
