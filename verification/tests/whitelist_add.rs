use launchpad::address::Address;
use launchpad::error::WhitelistError;
use launchpad::state::{Auction, Bid, Store};
use launchpad::whitelist::{materialize, whitelist_add, WhitelistAdd, WhitelistAddParams};

const PID: [u8; 32] = [7u8; 32];
const AUCTION_ADDR: [u8; 32] = [9u8; 32];
const OWNER: [u8; 32] = [1u8; 32];

fn addr(bytes: [u8; 32]) -> Address {
    Address::new(bytes)
}

fn auction() -> Auction {
    Auction { address: addr(AUCTION_ADDR), owner: addr(OWNER) }
}

/// The (slot, nonce) pair the host derives for a participant's bid record.
fn derive_slot(participant: &[u8; 32]) -> (Address, u8) {
    let pid = anchor_lang::prelude::Pubkey::new_from_array(PID);
    let (key, bump) = anchor_lang::prelude::Pubkey::find_program_address(
        &[b"bid", participant, &AUCTION_ADDR],
        &pid,
    );
    (addr(key.to_bytes()), bump)
}

fn valid_batch(participants: &[[u8; 32]]) -> (WhitelistAdd, WhitelistAddParams) {
    let mut addresses = Vec::new();
    let mut bumps = Vec::new();
    let mut slots = Vec::new();
    for p in participants {
        let (slot, bump) = derive_slot(p);
        addresses.push(addr(*p));
        bumps.push(bump);
        slots.push(slot);
    }
    (
        WhitelistAdd { owner: addr(OWNER), auction: auction(), bid_slots: slots },
        WhitelistAddParams { addresses, bumps },
    )
}

fn assert_bid_eq(a: &Bid, b: &Bid) {
    assert!(a.owner.bytes == b.owner.bytes);
    assert!(a.auction.bytes == b.auction.bytes);
    assert_eq!(a.seller_initialized, b.seller_initialized);
    assert_eq!(a.whitelisted, b.whitelisted);
    assert_eq!(a.bump, b.bump);
}

#[test]
fn three_fresh_addresses_whitelisted() {
    let participants = [[11u8; 32], [12u8; 32], [13u8; 32]];
    let (accounts, params) = valid_batch(&participants);
    let mut store = Store::new();
    let r = whitelist_add(&mut store, &addr(PID), &accounts, &params);
    assert_eq!(r, Ok(()));
    assert_eq!(store.len(), 3);
    for (i, p) in participants.iter().enumerate() {
        let slot = &accounts.bid_slots[i];
        assert!(store.contains(slot));
        let bid = store.load_or_blank(slot);
        assert!(bid.owner.bytes == *p);
        assert!(bid.auction.bytes == AUCTION_ADDR);
        assert!(bid.seller_initialized);
        assert!(bid.whitelisted);
        assert_eq!(bid.bump, params.bumps[i]);
    }
}

#[test]
fn rerun_same_batch_leaves_store_unchanged() {
    let participants = [[11u8; 32], [12u8; 32], [13u8; 32]];
    let (accounts, params) = valid_batch(&participants);
    let mut store = Store::new();
    assert_eq!(whitelist_add(&mut store, &addr(PID), &accounts, &params), Ok(()));
    let before: Vec<Bid> = accounts.bid_slots.iter().map(|s| store.load_or_blank(s)).collect();
    assert_eq!(whitelist_add(&mut store, &addr(PID), &accounts, &params), Ok(()));
    assert_eq!(store.len(), 3);
    for (i, slot) in accounts.bid_slots.iter().enumerate() {
        let after = store.load_or_blank(slot);
        assert_bid_eq(&after, &before[i]);
        assert!(after.whitelisted);
    }
}

#[test]
fn nonce_length_mismatch_rejected() {
    let (accounts, mut params) = valid_batch(&[[11u8; 32], [12u8; 32]]);
    params.bumps.pop();
    let mut store = Store::new();
    let r = whitelist_add(&mut store, &addr(PID), &accounts, &params);
    assert_eq!(r, Err(WhitelistError::InvalidInput));
    assert_eq!(store.len(), 0);
}

#[test]
fn slot_length_mismatch_rejected() {
    let (mut accounts, params) = valid_batch(&[[11u8; 32], [12u8; 32]]);
    accounts.bid_slots.pop();
    let mut store = Store::new();
    let r = whitelist_add(&mut store, &addr(PID), &accounts, &params);
    assert_eq!(r, Err(WhitelistError::InvalidInput));
    assert_eq!(store.len(), 0);
}

#[test]
fn empty_batch_rejected() {
    let (accounts, params) = valid_batch(&[]);
    let mut store = Store::new();
    let r = whitelist_add(&mut store, &addr(PID), &accounts, &params);
    assert_eq!(r, Err(WhitelistError::InvalidInput));
    assert_eq!(store.len(), 0);
}

#[test]
fn mismatched_slot_rejects_whole_batch() {
    let (mut accounts, params) = valid_batch(&[[11u8; 32], [12u8; 32]]);
    // second supplied slot does not match its derived address
    accounts.bid_slots[1] = addr([42u8; 32]);
    let mut store = Store::new();
    let r = whitelist_add(&mut store, &addr(PID), &accounts, &params);
    assert_eq!(r, Err(WhitelistError::InvalidDerivedAddress(1)));
    // nothing committed, the valid first entry included
    assert_eq!(store.len(), 0);
    assert!(!store.contains(&accounts.bid_slots[0]));
}

#[test]
fn slot_equal_to_participant_rejected() {
    // a slot that merely echoes the participant's address is not the derived
    // address and must be refused
    let participant = [11u8; 32];
    let (mut accounts, params) = valid_batch(&[participant]);
    accounts.bid_slots[0] = addr(participant);
    let mut store = Store::new();
    let r = whitelist_add(&mut store, &addr(PID), &accounts, &params);
    assert_eq!(r, Err(WhitelistError::InvalidDerivedAddress(0)));
    assert_eq!(store.len(), 0);
}

#[test]
fn degenerate_derivation_rejected() {
    // hunt for a nonce whose derived candidate lies on the curve; the host
    // reports such a derivation as an error and the operation must refuse it
    let participant = [11u8; 32];
    let pid = anchor_lang::prelude::Pubkey::new_from_array(PID);
    let mut bad_bump: Option<u8> = None;
    for b in 0..=255u8 {
        let r = anchor_lang::prelude::Pubkey::create_program_address(
            &[b"bid", &participant, &AUCTION_ADDR, &[b]],
            &pid,
        );
        if r.is_err() {
            bad_bump = Some(b);
            break;
        }
    }
    let bad_bump = bad_bump.expect("some nonce must yield a degenerate derivation");
    let (mut accounts, mut params) = valid_batch(&[participant]);
    params.bumps[0] = bad_bump;
    accounts.bid_slots[0] = addr([42u8; 32]);
    let mut store = Store::new();
    let r = whitelist_add(&mut store, &addr(PID), &accounts, &params);
    assert_eq!(r, Err(WhitelistError::InvalidDerivedAddress(0)));
    assert_eq!(store.len(), 0);
}

#[test]
fn non_owner_rejected() {
    let (mut accounts, params) = valid_batch(&[[11u8; 32]]);
    accounts.owner = addr([2u8; 32]);
    let mut store = Store::new();
    let r = whitelist_add(&mut store, &addr(PID), &accounts, &params);
    assert_eq!(r, Err(WhitelistError::Unauthorized));
    assert_eq!(store.len(), 0);
}

#[test]
fn failed_batch_leaves_prior_records_intact() {
    let first = [[11u8; 32], [12u8; 32]];
    let (accounts1, params1) = valid_batch(&first);
    let mut store = Store::new();
    assert_eq!(whitelist_add(&mut store, &addr(PID), &accounts1, &params1), Ok(()));
    let before: Vec<Bid> = accounts1.bid_slots.iter().map(|s| store.load_or_blank(s)).collect();

    // a batch touching one old and one new participant, with a bad slot
    let (mut accounts2, params2) = valid_batch(&[[11u8; 32], [14u8; 32]]);
    accounts2.bid_slots[1] = addr([42u8; 32]);
    let r = whitelist_add(&mut store, &addr(PID), &accounts2, &params2);
    assert_eq!(r, Err(WhitelistError::InvalidDerivedAddress(1)));

    assert_eq!(store.len(), 2);
    for (i, slot) in accounts1.bid_slots.iter().enumerate() {
        let after = store.load_or_blank(slot);
        assert_bid_eq(&after, &before[i]);
    }
}

#[test]
fn materialize_first_touch_initializes_in_full() {
    let blank = Bid {
        owner: addr([0u8; 32]),
        auction: addr([0u8; 32]),
        seller_initialized: false,
        whitelisted: false,
        bump: 0,
    };
    let rec = materialize(&blank, &addr([11u8; 32]), &addr(AUCTION_ADDR), 254);
    assert!(rec.owner.bytes == [11u8; 32]);
    assert!(rec.auction.bytes == AUCTION_ADDR);
    assert!(rec.seller_initialized);
    assert!(rec.whitelisted);
    assert_eq!(rec.bump, 254);
}

#[test]
fn materialize_re_touch_only_flips_whitelisted() {
    let existing = Bid {
        owner: addr([33u8; 32]),
        auction: addr([44u8; 32]),
        seller_initialized: false,
        whitelisted: false,
        bump: 5,
    };
    // the batch claims a different owner; a re-touch must not believe it
    let rec = materialize(&existing, &addr([11u8; 32]), &addr(AUCTION_ADDR), 254);
    assert!(rec.owner.bytes == [33u8; 32]);
    assert!(rec.auction.bytes == [44u8; 32]);
    assert!(!rec.seller_initialized);
    assert!(rec.whitelisted);
    assert_eq!(rec.bump, 5);
}

#[test]
fn grant_on_existing_record_only_flips_whitelisted() {
    // a record created by another path: initialized (non-zero nonce) but not
    // yet whitelisted
    let participant = [11u8; 32];
    let (accounts, params) = valid_batch(&[participant]);
    let slot = accounts.bid_slots[0];
    let existing = Bid {
        owner: addr(participant),
        auction: addr(AUCTION_ADDR),
        seller_initialized: false,
        whitelisted: false,
        bump: params.bumps[0],
    };
    let mut store = Store::new();
    store.commit_batch(&vec![(slot, existing)]);
    assert_eq!(whitelist_add(&mut store, &addr(PID), &accounts, &params), Ok(()));
    assert_eq!(store.len(), 1);
    let after = store.load_or_blank(&slot);
    assert!(after.owner.bytes == participant);
    assert!(after.auction.bytes == AUCTION_ADDR);
    assert!(!after.seller_initialized);
    assert!(after.whitelisted);
    assert_eq!(after.bump, params.bumps[0]);
}

#[test]
fn derivation_is_deterministic_across_runs() {
    let participants = [[11u8; 32]];
    let (accounts, params) = valid_batch(&participants);
    let mut s1 = Store::new();
    let mut s2 = Store::new();
    assert_eq!(whitelist_add(&mut s1, &addr(PID), &accounts, &params), Ok(()));
    assert_eq!(whitelist_add(&mut s2, &addr(PID), &accounts, &params), Ok(()));
    let b1 = s1.load_or_blank(&accounts.bid_slots[0]);
    let b2 = s2.load_or_blank(&accounts.bid_slots[0]);
    assert_bid_eq(&b1, &b2);
}
