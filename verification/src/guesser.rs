//! Where a block's guesser fee goes.
use vstd::prelude::*;

verus! {

/// A digest: five base-field elements, each held by its canonical value.
#[derive(Clone, Copy, Debug, PartialEq, Eq, Hash, Structural)]
pub struct Digest(pub u64, pub u64, pub u64, pub u64, pub u64);

/// The lock script hash of a UTXO: the digest of its lock script.
#[derive(Clone, Copy, Debug, PartialEq, Eq, Hash, Structural)]
pub struct DigestLockScript(pub Digest);

/// Who receives the guesser fee of a block.
#[derive(Clone, Copy, Debug, PartialEq, Eq, Hash, Structural)]
pub struct GuesserReceiverData {
    pub receiver_digest: Digest,
    pub lock_script_hash: DigestLockScript,
}

} // verus!
