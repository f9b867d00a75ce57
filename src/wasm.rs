use vstd::prelude::*;

verus! {

/// The SHA-256 digest of `data`.
pub uninterp spec fn sha256_of(data: Seq<u8>) -> Seq<u8>;

/// Relies on sha2::Sha256 (through `Digest::digest`): the SHA-256 digest of
/// `data`, which is 32 bytes long.
#[verifier::external_body]
fn sha256(data: &Vec<u8>) -> (r: Vec<u8>)
    ensures
        r@ == sha256_of(data@),
        r@.len() == 32,
{
    <sha2::Sha256 as sha2::Digest>::digest(data.as_slice()).to_vec()
}

/// A wasm image of the monitor together with its SHA-256 hash.
pub struct MonitorWasm {
    pub image: Vec<u8>,
    pub hash: Vec<u8>,
}

impl MonitorWasm {
    pub fn new(image: Vec<u8>) -> (r: Self)
        ensures
            r.image == image,
            r.hash@ == sha256_of(image@),
            r.hash@.len() == 32,
    {
        let hash = sha256(&image);
        MonitorWasm { image, hash }
    }
}

} // verus!
