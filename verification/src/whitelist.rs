//! The whitelist-add operation: validate the batch shape, re-derive and
//! verify every storage address, materialize every record, commit the batch
//! as one unit.

use vstd::prelude::*;
use crate::address::{addr_eq, Address};
use crate::derivation::{derive_bid_address, derived_bid_address};
use crate::error::WhitelistError;
use crate::state::{
    committed, lemma_committed_lookup, lemma_last_write_idx, load, writes, Auction, Bid, BidView,
    Store,
};

verus! {

/// The accounts a whitelist-add request touches: the caller (already
/// signature-verified by the host; this operation checks that it is the
/// auction's owner), the auction whose whitelist grows, and the storage
/// slots the caller claims hold the participants' bid records, parallel to
/// `WhitelistAddParams::addresses`.
pub struct WhitelistAdd {
    pub owner: Address,
    pub auction: Auction,
    pub bid_slots: Vec<Address>,
}

/// Batch parameters: the participants to whitelist and, in parallel, the
/// nonces their record addresses were derived with.
pub struct WhitelistAddParams {
    pub addresses: Vec<Address>,
    pub bumps: Vec<u8>,
}

/// The batch has a workable shape: non-empty, one supplied storage slot per
/// address, one nonce per address.
pub open spec fn shape_ok(addresses: Seq<Address>, bumps: Seq<u8>, slots: Seq<Address>) -> bool {
    &&& addresses.len() > 0
    &&& slots.len() == addresses.len()
    &&& addresses.len() == bumps.len()
}

/// The supplied slot equals the address re-derived from (participant,
/// auction, nonce); in particular the derivation is not degenerate.
pub open spec fn entry_ok(
    program_id: Seq<u8>,
    auction_addr: Seq<u8>,
    participant: Address,
    nonce: u8,
    slot: Address,
) -> bool {
    derived_bid_address(program_id, participant@, auction_addr, nonce) == Some(slot@)
}

/// Every entry of the batch passes derivation verification.
pub open spec fn batch_ok(
    program_id: Seq<u8>,
    auction_addr: Seq<u8>,
    addresses: Seq<Address>,
    bumps: Seq<u8>,
    slots: Seq<Address>,
) -> bool {
    forall|i: int| 0 <= i < addresses.len() ==> entry_ok(
        program_id,
        auction_addr,
        addresses[i],
        bumps[i],
        slots[i],
    )
}

/// The state transition of one record. A record loaded with the sentinel
/// nonce 0 is initialized in full; an already-initialized record has only
/// its `whitelisted` flag asserted true, every other field kept.
pub open spec fn touched(
    loaded: BidView,
    participant: Seq<u8>,
    auction_addr: Seq<u8>,
    nonce: u8,
) -> BidView {
    if loaded.bump == 0 {
        BidView {
            owner: participant,
            auction: auction_addr,
            seller_initialized: true,
            whitelisted: true,
            bump: nonce,
        }
    } else {
        BidView {
            owner: loaded.owner,
            auction: loaded.auction,
            seller_initialized: loaded.seller_initialized,
            whitelisted: true,
            bump: loaded.bump,
        }
    }
}

/// The write batch a valid request stages against store `m`: for each entry,
/// the record loaded from its slot, touched.
pub open spec fn staged(
    m: Map<Seq<u8>, BidView>,
    auction_addr: Seq<u8>,
    addresses: Seq<Address>,
    bumps: Seq<u8>,
    slots: Seq<Address>,
) -> Seq<(Seq<u8>, BidView)> {
    Seq::new(
        addresses.len(),
        |i: int| (
            slots[i]@,
            touched(load(m, slots[i]@), addresses[i]@, auction_addr, bumps[i]),
        ),
    )
}

/// Materializer: the in-memory image of one record after the whitelist
/// transition, not yet persisted.
pub fn materialize(loaded: &Bid, participant: &Address, auction_addr: &Address, nonce: u8) -> (r:
    Bid)
    ensures
        r@ == touched(loaded@, participant@, auction_addr@, nonce),
{
    if loaded.bump == 0 {
        Bid {
            owner: *participant,
            auction: *auction_addr,
            seller_initialized: true,
            whitelisted: true,
            bump: nonce,
        }
    } else {
        Bid {
            owner: loaded.owner,
            auction: loaded.auction,
            seller_initialized: loaded.seller_initialized,
            whitelisted: true,
            bump: loaded.bump,
        }
    }
}

/// First touch: a record loaded with the sentinel nonce 0 is initialized in
/// full — owner, auction, `seller_initialized`, nonce — and whitelisted.
pub proof fn lemma_first_touch(
    loaded: BidView,
    participant: Seq<u8>,
    auction_addr: Seq<u8>,
    nonce: u8,
)
    requires
        loaded.bump == 0,
    ensures
        touched(loaded, participant, auction_addr, nonce) == (BidView {
            owner: participant,
            auction: auction_addr,
            seller_initialized: true,
            whitelisted: true,
            bump: nonce,
        }),
{
}

/// Re-touch: a record loaded with a non-zero nonce has only its
/// `whitelisted` flag asserted true; every other field reads back as loaded.
pub proof fn lemma_re_touch(loaded: BidView, participant: Seq<u8>, auction_addr: Seq<u8>, nonce: u8)
    requires
        loaded.bump != 0,
    ensures
        touched(loaded, participant, auction_addr, nonce) == (BidView {
            owner: loaded.owner,
            auction: loaded.auction,
            seller_initialized: loaded.seller_initialized,
            whitelisted: true,
            bump: loaded.bump,
        }),
{
}

/// Touching a record twice with the same entry leaves what one touch left.
pub proof fn lemma_touched_idempotent(
    loaded: BidView,
    participant: Seq<u8>,
    auction_addr: Seq<u8>,
    nonce: u8,
)
    ensures
        touched(
            touched(loaded, participant, auction_addr, nonce),
            participant,
            auction_addr,
            nonce,
        ) == touched(loaded, participant, auction_addr, nonce),
{
}

/// Idempotence: committing a batch's staged writes twice in sequence — the
/// second staging loading from the store the first left — yields the same
/// store as committing them once. Together with `whitelist_add`'s `ensures`
/// (which pin its `Ok` outcome to exactly this map, and its `Ok`/`Err`
/// verdict to store-independent conditions) this says that running the same
/// valid batch twice persists the same state as running it once.
pub proof fn lemma_whitelist_idempotent(
    m: Map<Seq<u8>, BidView>,
    auction_addr: Seq<u8>,
    addresses: Seq<Address>,
    bumps: Seq<u8>,
    slots: Seq<Address>,
)
    requires
        shape_ok(addresses, bumps, slots),
    ensures
        ({
            let once = committed(m, staged(m, auction_addr, addresses, bumps, slots));
            committed(once, staged(once, auction_addr, addresses, bumps, slots)) == once
        }),
{
    let st1 = staged(m, auction_addr, addresses, bumps, slots);
    let m1 = committed(m, st1);
    let st2 = staged(m1, auction_addr, addresses, bumps, slots);
    let m2 = committed(m1, st2);
    assert forall|k: Seq<u8>| #[trigger] m2.dom().contains(k) implies m1.dom().contains(k) by {
        lemma_whitelist_idempotent_at(m, auction_addr, addresses, bumps, slots, k);
    }
    assert forall|k: Seq<u8>| #[trigger] m1.dom().contains(k) implies m2.dom().contains(k) by {
        lemma_whitelist_idempotent_at(m, auction_addr, addresses, bumps, slots, k);
    }
    assert(m2.dom() =~= m1.dom());
    assert forall|k: Seq<u8>| #[trigger] m1.dom().contains(k) implies m2[k] == m1[k] by {
        lemma_whitelist_idempotent_at(m, auction_addr, addresses, bumps, slots, k);
    }
    assert(m2 =~= m1);
}

/// One address of `lemma_whitelist_idempotent`: the second pass re-stages at
/// `k` exactly the record the first pass left there.
proof fn lemma_whitelist_idempotent_at(
    m: Map<Seq<u8>, BidView>,
    auction_addr: Seq<u8>,
    addresses: Seq<Address>,
    bumps: Seq<u8>,
    slots: Seq<Address>,
    k: Seq<u8>,
)
    requires
        shape_ok(addresses, bumps, slots),
    ensures
        ({
            let st1 = staged(m, auction_addr, addresses, bumps, slots);
            let m1 = committed(m, st1);
            let st2 = staged(m1, auction_addr, addresses, bumps, slots);
            let m2 = committed(m1, st2);
            &&& (m2.contains_key(k) <==> m1.contains_key(k))
            &&& (m1.contains_key(k) ==> m2[k] == m1[k])
        }),
{
    let st1 = staged(m, auction_addr, addresses, bumps, slots);
    let m1 = committed(m, st1);
    let st2 = staged(m1, auction_addr, addresses, bumps, slots);
    let m2 = committed(m1, st2);
    lemma_committed_lookup(m, st1, k);
    lemma_committed_lookup(m1, st2, k);
    if writes(st1, k) || writes(st2, k) {
        let w = if writes(st1, k) {
            choose|w: int| 0 <= w < st1.len() && st1[w].0 == k
        } else {
            choose|w: int| 0 <= w < st2.len() && st2[w].0 == k
        };
        assert(st1[w].0 == slots[w]@ && st2[w].0 == slots[w]@);
        assert(writes(st1, k) && writes(st2, k));
        let j1 = lemma_last_write_idx(st1, k);
        let j2 = lemma_last_write_idx(st2, k);
        assert(st1[j2].0 == k && st2[j1].0 == k);
        assert(j1 == j2);
        let l0 = load(m, slots[j1]@);
        assert(m1[k] == touched(l0, addresses[j1]@, auction_addr, bumps[j1]));
        assert(load(m1, slots[j1]@) == m1[k]);
        lemma_touched_idempotent(l0, addresses[j1]@, auction_addr, bumps[j1]);
        assert(m2[k] == m1[k]);
    }
}

/// Whitelist a batch of participants for `auction`, atomically.
///
/// For each index, the storage address supplied in `slots` must equal the
/// address re-derived from (participant, auction, nonce); every verified
/// entry's record is then loaded (or materialized blank), marked
/// whitelisted — initializing it in full on first touch — and the whole
/// batch is committed as one unit. Any failure leaves the store untouched.
pub fn whitelist_add(
    store: &mut Store,
    program_id: &Address,
    accounts: &WhitelistAdd,
    params: &WhitelistAddParams,
) -> (r: Result<(), WhitelistError>)
    requires
        old(store).wf(),
    ensures
        final(store).wf(),
        r is Err ==> final(store)@ == old(store)@,
        r == Err::<(), WhitelistError>(WhitelistError::Unauthorized) <==> accounts.owner@
            != accounts.auction.owner@,
        accounts.owner@ == accounts.auction.owner@ ==> (r == Err::<(), WhitelistError>(WhitelistError::InvalidInput)
            <==> !shape_ok(params.addresses@, params.bumps@, accounts.bid_slots@)),
        accounts.owner@ == accounts.auction.owner@ && shape_ok(params.addresses@, params.bumps@, accounts.bid_slots@) ==> (
        r is Ok <==> batch_ok(
            program_id@,
            accounts.auction.address@,
            params.addresses@,
            params.bumps@,
            accounts.bid_slots@,
        )),
        r matches Err(WhitelistError::InvalidDerivedAddress(i)) ==> {
            &&& accounts.owner@ == accounts.auction.owner@
            &&& shape_ok(params.addresses@, params.bumps@, accounts.bid_slots@)
            &&& 0 <= i < params.addresses@.len()
            &&& !entry_ok(
                program_id@,
                accounts.auction.address@,
                params.addresses@[i as int],
                params.bumps@[i as int],
                accounts.bid_slots@[i as int],
            )
            &&& forall|j: int| 0 <= j < i ==> entry_ok(
                program_id@,
                accounts.auction.address@,
                params.addresses@[j],
                params.bumps@[j],
                accounts.bid_slots@[j],
            )
        },
        r != Err::<(), WhitelistError>(WhitelistError::PersistenceFailed),
        r is Ok ==> final(store)@ == committed(
            old(store)@,
            staged(old(store)@, accounts.auction.address@, params.addresses@, params.bumps@, accounts.bid_slots@),
        ),
{
    if !addr_eq(&accounts.owner, &accounts.auction.owner) {
        return Err(WhitelistError::Unauthorized);
    }
    let n = params.addresses.len();
    if n == 0 || accounts.bid_slots.len() != n || n != params.bumps.len() {
        return Err(WhitelistError::InvalidInput);
    }
    let mut i: usize = 0;
    while i < n
        invariant
            *store == *old(store),
            store.wf(),
            accounts.owner@ == accounts.auction.owner@,
            shape_ok(params.addresses@, params.bumps@, accounts.bid_slots@),
            n == params.addresses@.len(),
            n == params.bumps@.len(),
            n == accounts.bid_slots@.len(),
            0 <= i <= n,
            forall|j: int| 0 <= j < i ==> entry_ok(
                program_id@,
                accounts.auction.address@,
                params.addresses@[j],
                params.bumps@[j],
                accounts.bid_slots@[j],
            ),
        decreases n - i,
    {
        match derive_bid_address(program_id, &params.addresses[i], &accounts.auction.address, params.bumps[i]) {
            Some(expected) => {
                if !addr_eq(&expected, &accounts.bid_slots[i]) {
                    proof {
                        assert(!entry_ok(
                            program_id@,
                            accounts.auction.address@,
                            params.addresses@[i as int],
                            params.bumps@[i as int],
                            accounts.bid_slots@[i as int],
                        ));
                    }
                    return Err(WhitelistError::InvalidDerivedAddress(i));
                }
            },
            None => {
                proof {
                    assert(!entry_ok(
                        program_id@,
                        accounts.auction.address@,
                        params.addresses@[i as int],
                        params.bumps@[i as int],
                        accounts.bid_slots@[i as int],
                    ));
                }
                return Err(WhitelistError::InvalidDerivedAddress(i));
            },
        }
        i += 1;
    }
    assert(batch_ok(program_id@, accounts.auction.address@, params.addresses@, params.bumps@, accounts.bid_slots@));
    let mut batch: Vec<(Address, Bid)> = Vec::new();
    let mut i: usize = 0;
    while i < n
        invariant
            *store == *old(store),
            store.wf(),
            n == params.addresses@.len(),
            n == params.bumps@.len(),
            n == accounts.bid_slots@.len(),
            0 <= i <= n,
            batch@.len() == i,
            forall|j: int| 0 <= j < i ==> (#[trigger] batch@[j]).0 == accounts.bid_slots@[j] && batch@[j].1@
                == touched(
                load(old(store)@, accounts.bid_slots@[j]@),
                params.addresses@[j]@,
                accounts.auction.address@,
                params.bumps@[j],
            ),
        decreases n - i,
    {
        let loaded = store.load_or_blank(&accounts.bid_slots[i]);
        let rec = materialize(&loaded, &params.addresses[i], &accounts.auction.address, params.bumps[i]);
        batch.push((accounts.bid_slots[i], rec));
        i += 1;
    }
    proof {
        assert(batch@.map_values(|p: (Address, Bid)| (p.0@, p.1@)) =~= staged(
            old(store)@,
            accounts.auction.address@,
            params.addresses@,
            params.bumps@,
            accounts.bid_slots@,
        ));
    }
    store.commit_batch(&batch);
    Ok(())
}

} // verus!
