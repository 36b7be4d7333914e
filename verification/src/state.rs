//! Auction and bid records, and the record store they are committed to.

use vstd::prelude::*;
use crate::address::{addr_eq, Address};

verus! {

broadcast use vstd::array::group_array_axioms;

/// Read-only view of the auction whose whitelist is being extended: its own
/// storage address and its owner, the only fields this operation consults.
pub struct Auction {
    pub address: Address,
    pub owner: Address,
}

/// One participant's bid record for one auction.
#[derive(Clone, Copy, Debug)]
pub struct Bid {
    /// Address of the whitelisted participant. Set once, at first
    /// initialization.
    pub owner: Address,
    /// Address of the owning auction record. Set once, at first
    /// initialization.
    pub auction: Address,
    /// True once this flow has touched the record.
    pub seller_initialized: bool,
    /// The field this operation exists to set; setting it again is a no-op.
    pub whitelisted: bool,
    /// The nonce this record's storage address was derived with; 0 is the
    /// "not yet initialized" sentinel.
    pub bump: u8,
}

/// Mathematical image of a bid record.
pub struct BidView {
    pub owner: Seq<u8>,
    pub auction: Seq<u8>,
    pub seller_initialized: bool,
    pub whitelisted: bool,
    pub bump: u8,
}

impl View for Bid {
    type V = BidView;

    open spec fn view(&self) -> BidView {
        BidView {
            owner: self.owner@,
            auction: self.auction@,
            seller_initialized: self.seller_initialized,
            whitelisted: self.whitelisted,
            bump: self.bump,
        }
    }
}

/// All-zero bytes: the owner and auction fields of a record that nothing has
/// written yet.
pub open spec fn zero_addr() -> Seq<u8> {
    Seq::new(32, |i: int| 0u8)
}

/// The record a never-written storage slot reads as: every field zeroed, in
/// particular the sentinel `bump == 0`.
pub open spec fn blank_bid() -> BidView {
    BidView {
        owner: zero_addr(),
        auction: zero_addr(),
        seller_initialized: false,
        whitelisted: false,
        bump: 0,
    }
}

/// What a load from storage returns: the stored record, or a blank one where
/// the slot was never written.
pub open spec fn load(m: Map<Seq<u8>, BidView>, k: Seq<u8>) -> BidView {
    if m.contains_key(k) {
        m[k]
    } else {
        blank_bid()
    }
}

/// The store after writing every `(slot address, record)` pair of `batch` in
/// order; a later entry for the same address wins.
pub open spec fn committed(
    m: Map<Seq<u8>, BidView>,
    batch: Seq<(Seq<u8>, BidView)>,
) -> Map<Seq<u8>, BidView>
    decreases batch.len(),
{
    if batch.len() == 0 {
        m
    } else {
        committed(m, batch.drop_last()).insert(batch.last().0, batch.last().1)
    }
}

/// Whether some entry of `batch` writes address `k`.
pub open spec fn writes(batch: Seq<(Seq<u8>, BidView)>, k: Seq<u8>) -> bool {
    exists|j: int| 0 <= j < batch.len() && batch[j].0 == k
}

/// The record the last entry of `batch` writing address `k` carries.
pub open spec fn last_write(batch: Seq<(Seq<u8>, BidView)>, k: Seq<u8>) -> BidView
    decreases batch.len(),
{
    if batch.len() == 0 {
        blank_bid()
    } else if batch.last().0 == k {
        batch.last().1
    } else {
        last_write(batch.drop_last(), k)
    }
}

/// How `committed` reads at a single address: entries for other addresses
/// are immaterial, and among entries for `k` the last wins.
pub proof fn lemma_committed_lookup(
    m: Map<Seq<u8>, BidView>,
    batch: Seq<(Seq<u8>, BidView)>,
    k: Seq<u8>,
)
    ensures
        committed(m, batch).contains_key(k) <==> (m.contains_key(k) || writes(batch, k)),
        writes(batch, k) ==> committed(m, batch)[k] == last_write(batch, k),
        !writes(batch, k) && m.contains_key(k) ==> committed(m, batch)[k] == m[k],
    decreases batch.len(),
{
    if batch.len() == 0 {
        assert(!writes(batch, k));
    } else {
        let prefix = batch.drop_last();
        lemma_committed_lookup(m, prefix, k);
        if batch.last().0 == k {
            assert(writes(batch, k)) by {
                assert(batch[batch.len() - 1].0 == k);
            }
        } else {
            if writes(prefix, k) {
                let j = choose|j: int| 0 <= j < prefix.len() && prefix[j].0 == k;
                assert(batch[j].0 == k);
            }
            if writes(batch, k) {
                let j = choose|j: int| 0 <= j < batch.len() && batch[j].0 == k;
                assert(prefix[j].0 == k);
            }
        }
    }
}

/// The last entry of `batch` writing `k` sits at a definite index: `k`'s
/// record in the committed store is the one staged there.
pub proof fn lemma_last_write_idx(batch: Seq<(Seq<u8>, BidView)>, k: Seq<u8>) -> (j: int)
    requires
        writes(batch, k),
    ensures
        0 <= j < batch.len(),
        batch[j].0 == k,
        batch[j].1 == last_write(batch, k),
        forall|l: int| j < l < batch.len() ==> batch[l].0 != k,
    decreases batch.len(),
{
    if batch.last().0 == k {
        batch.len() - 1
    } else {
        let prefix = batch.drop_last();
        assert(writes(prefix, k)) by {
            let w = choose|w: int| 0 <= w < batch.len() && batch[w].0 == k;
            assert(prefix[w].0 == k);
        }
        let j = lemma_last_write_idx(prefix, k);
        assert(batch[j].0 == k);
        assert forall|l: int| j < l < batch.len() implies batch[l].0 != k by {
            if l < batch.len() - 1 {
                assert(batch[l] == prefix[l]);
            }
        }
        j
    }
}

/// No two entries hold the same address.
pub open spec fn distinct_addrs(s: Seq<(Address, Bid)>) -> bool {
    forall|i: int, j: int| 0 <= i < j < s.len() ==> s[i].0@ != s[j].0@
}

/// The map an entry sequence denotes; a later entry for the same address
/// wins, though a well-formed store never holds two.
pub open spec fn entries_map(s: Seq<(Address, Bid)>) -> Map<Seq<u8>, BidView>
    decreases s.len(),
{
    if s.len() == 0 {
        Map::empty()
    } else {
        entries_map(s.drop_last()).insert(s.last().0@, s.last().1@)
    }
}

pub proof fn lemma_entries_map_dom(s: Seq<(Address, Bid)>, k: Seq<u8>)
    ensures
        entries_map(s).contains_key(k) <==> exists|i: int| 0 <= i < s.len() && s[i].0@ == k,
    decreases s.len(),
{
    if s.len() == 0 {
    } else {
        let prefix = s.drop_last();
        lemma_entries_map_dom(prefix, k);
        if s.last().0@ == k {
            assert(s[s.len() - 1].0@ == k);
        } else {
            if entries_map(prefix).contains_key(k) {
                let i = choose|i: int| 0 <= i < prefix.len() && prefix[i].0@ == k;
                assert(s[i].0@ == k);
            }
            if exists|i: int| 0 <= i < s.len() && s[i].0@ == k {
                let i = choose|i: int| 0 <= i < s.len() && s[i].0@ == k;
                assert(prefix[i].0@ == k);
            }
        }
    }
}

pub proof fn lemma_entries_map_at(s: Seq<(Address, Bid)>, i: int)
    requires
        distinct_addrs(s),
        0 <= i < s.len(),
    ensures
        entries_map(s).contains_key(s[i].0@),
        entries_map(s)[s[i].0@] == s[i].1@,
    decreases s.len(),
{
    let prefix = s.drop_last();
    if i == s.len() - 1 {
    } else {
        lemma_entries_map_at(prefix, i);
        assert(s[i].0@ != s.last().0@);
    }
}

pub proof fn lemma_entries_map_len(s: Seq<(Address, Bid)>)
    requires
        distinct_addrs(s),
    ensures
        entries_map(s).dom().finite(),
        entries_map(s).dom().len() == s.len(),
    decreases s.len(),
{
    if s.len() == 0 {
        assert(entries_map(s).dom() =~= Set::<Seq<u8>>::empty());
    } else {
        let prefix = s.drop_last();
        lemma_entries_map_len(prefix);
        lemma_entries_map_dom(prefix, s.last().0@);
        assert(!entries_map(prefix).contains_key(s.last().0@)) by {
            if exists|i: int| 0 <= i < prefix.len() && prefix[i].0@ == s.last().0@ {
                let i = choose|i: int| 0 <= i < prefix.len() && prefix[i].0@ == s.last().0@;
                assert(s[i].0@ == s[s.len() - 1].0@);
            }
        }
        assert(entries_map(s).dom() =~= entries_map(prefix).dom().insert(s.last().0@));
    }
}

/// The record store: one slot per address, reachable by that address alone.
/// It stands for the ledger's per-address account storage.
pub struct Store {
    entries: Vec<(Address, Bid)>,
}

impl View for Store {
    type V = Map<Seq<u8>, BidView>;

    closed spec fn view(&self) -> Map<Seq<u8>, BidView> {
        entries_map(self.entries@)
    }
}

impl Store {
    /// No two slots share an address.
    pub closed spec fn wf(&self) -> bool {
        distinct_addrs(self.entries@)
    }

    /// An empty store.
    pub fn new() -> (r: Store)
        ensures
            r.wf(),
            r@ == Map::<Seq<u8>, BidView>::empty(),
    {
        Store { entries: Vec::new() }
    }

    /// How many records the store holds.
    pub fn len(&self) -> (r: usize)
        requires
            self.wf(),
        ensures
            r == self@.dom().len(),
    {
        proof {
            lemma_entries_map_len(self.entries@);
        }
        self.entries.len()
    }

    /// Whether a record was ever committed at `addr`.
    pub fn contains(&self, addr: &Address) -> (r: bool)
        ensures
            r == self@.contains_key(addr@),
    {
        proof {
            lemma_entries_map_dom(self.entries@, addr@);
        }
        let n = self.entries.len();
        let mut i: usize = 0;
        while i < n
            invariant
                n == self.entries.len(),
                0 <= i <= n,
                forall|j: int| 0 <= j < i ==> self.entries@[j].0@ != addr@,
            decreases n - i,
        {
            if addr_eq(&self.entries[i].0, addr) {
                proof {
                    lemma_entries_map_dom(self.entries@, addr@);
                    assert(self.entries@[i as int].0@ == addr@);
                }
                return true;
            }
            i += 1;
        }
        false
    }

    /// The record stored at `addr`, or a blank one where the slot was never
    /// written — the ledger's create-on-first-use load.
    pub fn load_or_blank(&self, addr: &Address) -> (r: Bid)
        requires
            self.wf(),
        ensures
            r@ == load(self@, addr@),
    {
        proof {
            lemma_entries_map_dom(self.entries@, addr@);
        }
        let n = self.entries.len();
        let mut i: usize = 0;
        while i < n
            invariant
                self.wf(),
                n == self.entries.len(),
                0 <= i <= n,
                forall|j: int| 0 <= j < i ==> self.entries@[j].0@ != addr@,
            decreases n - i,
        {
            if addr_eq(&self.entries[i].0, addr) {
                proof {
                    lemma_entries_map_at(self.entries@, i as int);
                }
                return self.entries[i].1;
            }
            i += 1;
        }
        assert(!self@.contains_key(addr@));
        let zero = Address::new([0u8; 32]);
        assert(zero@ =~= zero_addr());
        Bid {
            owner: zero,
            auction: zero,
            seller_initialized: false,
            whitelisted: false,
            bump: 0,
        }
    }

    /// Write `bid` at `addr`, replacing what was there.
    fn upsert(&mut self, addr: Address, bid: Bid)
        requires
            old(self).wf(),
        ensures
            final(self).wf(),
            final(self)@ == old(self)@.insert(addr@, bid@),
    {
        let ghost s0 = self.entries@;
        let n = self.entries.len();
        let mut i: usize = 0;
        while i < n
            invariant
                self.wf(),
                self.entries@ == s0,
                s0 == old(self).entries@,
                n == s0.len(),
                0 <= i <= n,
                forall|j: int| 0 <= j < i ==> s0[j].0@ != addr@,
            decreases n - i,
        {
            if addr_eq(&self.entries[i].0, &addr) {
                assert(s0[i as int].0@ == addr@);
                self.entries[i] = (addr, bid);
                proof {
                    lemma_entries_map_replace(s0, i as int, (addr, bid));
                    assert(self.entries@ == s0.update(i as int, (addr, bid)));
                    assert(self@ == entries_map(s0).insert(addr@, bid@));
                }
                return;
            }
            i += 1;
        }
        self.entries.push((addr, bid));
        proof {
            assert(self.entries@.drop_last() =~= s0);
            assert(forall|j: int, l: int|
                0 <= j < l < self.entries@.len() ==> self.entries@[j].0@ != self.entries@[l].0@);
        }
    }

    /// Persist a whole batch as one unit: every entry's record is stored at
    /// its address, in batch order.
    pub fn commit_batch(&mut self, batch: &Vec<(Address, Bid)>)
        requires
            old(self).wf(),
        ensures
            final(self).wf(),
            final(self)@ == committed(
                old(self)@,
                batch@.map_values(|p: (Address, Bid)| (p.0@, p.1@)),
            ),
    {
        let ghost m0 = self@;
        let ghost bv = batch@.map_values(|p: (Address, Bid)| (p.0@, p.1@));
        let n = batch.len();
        let mut i: usize = 0;
        while i < n
            invariant
                self.wf(),
                n == batch.len(),
                bv == batch@.map_values(|p: (Address, Bid)| (p.0@, p.1@)),
                0 <= i <= n,
                self@ == committed(m0, bv.take(i as int)),
            decreases n - i,
        {
            let (addr, bid) = batch[i];
            self.upsert(addr, bid);
            proof {
                assert(bv.take(i + 1).drop_last() =~= bv.take(i as int));
                assert(bv.take(i + 1).last() == (addr@, bid@));
            }
            i += 1;
        }
        proof {
            assert(bv.take(n as int) =~= bv);
        }
    }
}

/// Replacing the entry at `i` by one with the same address rewrites exactly
/// that address in the denoted map.
proof fn lemma_entries_map_replace(s: Seq<(Address, Bid)>, i: int, p: (Address, Bid))
    requires
        distinct_addrs(s),
        0 <= i < s.len(),
        s[i].0@ == p.0@,
    ensures
        distinct_addrs(s.update(i, p)),
        entries_map(s.update(i, p)) == entries_map(s).insert(p.0@, p.1@),
    decreases s.len(),
{
    let su = s.update(i, p);
    assert(distinct_addrs(su)) by {
        assert(forall|a: int| 0 <= a < su.len() ==> su[a].0@ == s[a].0@);
    }
    if i == s.len() - 1 {
        assert(su.drop_last() =~= s.drop_last());
        assert(entries_map(s).insert(p.0@, p.1@) =~= entries_map(s.drop_last()).insert(
            p.0@,
            p.1@,
        ));
    } else {
        assert(su.drop_last() =~= s.drop_last().update(i, p));
        lemma_entries_map_replace(s.drop_last(), i, p);
        assert(s[i].0@ != s.last().0@);
        assert(entries_map(s.drop_last()).insert(p.0@, p.1@).insert(s.last().0@, s.last().1@)
            =~= entries_map(s.drop_last()).insert(s.last().0@, s.last().1@).insert(p.0@, p.1@));
    }
}

} // verus!
