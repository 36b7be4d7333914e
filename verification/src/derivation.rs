//! Deterministic derivation of a bid record's storage address.

use vstd::prelude::*;
use crate::address::Address;

verus! {

/// The address that the host environment derives for a bid record from the
/// program id, the participant's address, the auction's address and the
/// disambiguation nonce — or `None` where the derivation is degenerate (the
/// candidate address falls on the ed25519 curve). The derivation is a pure
/// function of these four inputs: a hash over a fixed domain tag and the
/// inputs, identical on every machine.
pub uninterp spec fn derived_bid_address(
    program_id: Seq<u8>,
    participant: Seq<u8>,
    auction: Seq<u8>,
    nonce: u8,
) -> Option<Seq<u8>>;

/// Address-derivation soundness, first half: the derivation is a pure
/// function — identical inputs always yield the identical result. (The
/// second half, that the operation rejects any supplied slot different from
/// this value, is an `ensures` of `whitelist::whitelist_add`.)
pub proof fn lemma_derivation_deterministic(
    pid1: Seq<u8>,
    participant1: Seq<u8>,
    auction1: Seq<u8>,
    nonce1: u8,
    pid2: Seq<u8>,
    participant2: Seq<u8>,
    auction2: Seq<u8>,
    nonce2: u8,
)
    requires
        pid1 == pid2,
        participant1 == participant2,
        auction1 == auction2,
        nonce1 == nonce2,
    ensures
        derived_bid_address(pid1, participant1, auction1, nonce1) == derived_bid_address(
            pid2,
            participant2,
            auction2,
            nonce2,
        ),
{
}

/// Relies on `Pubkey::create_program_address` (anchor_lang's re-export of
/// solana-pubkey) with seeds `[b"bid", participant, auction, [nonce]]` under
/// `program_id`: the result depends on those inputs alone, and the call
/// returns `Err` exactly when the hashed candidate lies on the ed25519 curve
/// (all four seeds are at most 32 bytes, so no other error path is
/// reachable).
#[verifier::external_body]
pub(crate) fn derive_bid_address(
    program_id: &Address,
    participant: &Address,
    auction: &Address,
    nonce: u8,
) -> (r: Option<Address>)
    ensures
        r is Some <==> derived_bid_address(program_id@, participant@, auction@, nonce) is Some,
        r matches Some(a) ==> derived_bid_address(program_id@, participant@, auction@, nonce)
            == Some(a@),
{
    let pid = anchor_lang::prelude::Pubkey::new_from_array(program_id.bytes);
    let seeds: [&[u8]; 4] = [b"bid", &participant.bytes, &auction.bytes, &[nonce]];
    match anchor_lang::prelude::Pubkey::create_program_address(&seeds, &pid) {
        Ok(key) => Some(Address { bytes: key.to_bytes() }),
        Err(_) => None,
    }
}

} // verus!
