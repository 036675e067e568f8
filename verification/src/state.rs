//! The lockbox ledger and its records.
//!
//! `LiquidityLockbox` is the singleton ledger: an ordered arena of
//! `LockboxPosition` records plus the aggregate `total_liquidity` counter.
//! Records are appended in deposit order and consumed in the order fixed at
//! creation (oldest-first by default); a record whose liquidity reaches
//! zero is closed and never selected again. The well-formedness predicate
//! `wf` carries the conservation invariant:
//! `total_liquidity` equals the sum of the liquidity of the records that the
//! first-active cursor has not yet passed.

use vstd::prelude::*;
use crate::errors::ErrorCode;

verus! {

/// A 32-byte account address, held as two 128-bit halves so that equality is
/// plain integer equality.
#[derive(Clone, Copy, Debug, PartialEq, Eq, Structural)]
pub struct AccountId {
    pub hi: u128,
    pub lo: u128,
}

/// One custodied position: its stable identifier, the address of the
/// underlying pool position, the custody sub-account holding its claim
/// token, and the liquidity still attributable to it.
#[derive(Clone, Copy, Debug, PartialEq, Eq, Structural)]
pub struct LockboxPosition {
    /// Index of this record in the ledger; assigned at deposit, never reused.
    pub id: u32,
    /// Address of the underlying pool position account.
    pub position_account: AccountId,
    /// Address of the custody sub-account holding the position's claim token.
    pub position_pda_ata: AccountId,
    /// Liquidity remaining in this record.
    pub position_liquidity: u64,
}

impl LockboxPosition {
    /// Builds a record for a freshly deposited position.
    pub fn initialize(
        id: u32,
        position_liquidity: u64,
        position_account: AccountId,
        position_pda_ata: AccountId,
    ) -> (r: LockboxPosition)
        ensures
            r.id == id,
            r.position_liquidity == position_liquidity,
            r.position_account == position_account,
            r.position_pda_ata == position_pda_ata,
    {
        LockboxPosition { id, position_account, position_pda_ata, position_liquidity }
    }
}

/// Sum of the liquidity of `records[first..last]`.
pub open spec fn sum_liquidity(records: Seq<LockboxPosition>, first: int, last: int) -> int
    decreases last - first,
{
    if first >= last {
        0
    } else {
        records[first].position_liquidity + sum_liquidity(records, first + 1, last)
    }
}

/// The sum only reads the entries of the summed range: two sequences that
/// agree on `[first, last)` have the same sum there.
pub proof fn lemma_sum_liquidity_agree(s1: Seq<LockboxPosition>, s2: Seq<LockboxPosition>, first: int, last: int)
    requires
        0 <= first,
        last <= s1.len(),
        last <= s2.len(),
        forall|i: int| first <= i < last ==> s1[i] == s2[i],
    ensures
        sum_liquidity(s1, first, last) == sum_liquidity(s2, first, last),
    decreases last - first,
{
    if first < last {
        lemma_sum_liquidity_agree(s1, s2, first + 1, last);
    }
}

/// Extending the summed range by one appended entry adds its liquidity.
pub proof fn lemma_sum_liquidity_snoc(records: Seq<LockboxPosition>, first: int, last: int)
    requires
        0 <= first <= last,
        last < records.len(),
    ensures
        sum_liquidity(records, first, last + 1)
            == sum_liquidity(records, first, last) + records[last].position_liquidity,
    decreases last - first,
{
    if first < last {
        lemma_sum_liquidity_snoc(records, first + 1, last);
    } else {
        assert(sum_liquidity(records, first, last + 1)
            == records[last].position_liquidity + sum_liquidity(records, last + 1, last + 1));
    }
}

/// Every summand is non-negative, so the sum dominates each entry's
/// contribution and is itself non-negative.
pub proof fn lemma_sum_liquidity_bounds(records: Seq<LockboxPosition>, first: int, last: int)
    requires
        0 <= first,
        last <= records.len(),
    ensures
        sum_liquidity(records, first, last) >= 0,
        forall|i: int| first <= i < last ==>
            records[i].position_liquidity <= sum_liquidity(records, first, last),
    decreases last - first,
{
    if first < last {
        lemma_sum_liquidity_bounds(records, first + 1, last);
        assert forall|i: int| first <= i < last implies
            records[i].position_liquidity <= sum_liquidity(records, first, last) by {
            if i > first {
                assert(records[i].position_liquidity <= sum_liquidity(records, first + 1, last));
            }
        }
    }
}

/// Updating an entry inside the summed range shifts the sum by the change in
/// that entry's liquidity.
pub proof fn lemma_sum_liquidity_update(
    records: Seq<LockboxPosition>,
    first: int,
    last: int,
    i: int,
    v: LockboxPosition,
)
    requires
        0 <= first <= i < last,
        last <= records.len(),
    ensures
        sum_liquidity(records.update(i, v), first, last)
            == sum_liquidity(records, first, last)
                - records[i].position_liquidity + v.position_liquidity,
    decreases last - first,
{
    if first == i {
        lemma_sum_liquidity_agree(records.update(i, v), records, first + 1, last);
    } else {
        lemma_sum_liquidity_update(records, first + 1, last, i, v);
    }
}

/// The order in which a withdrawal consumes records. The policy is fixed
/// when a ledger is created, and the allocation query follows the same
/// policy, so precomputed allocations always match the withdrawal.
#[derive(Clone, Copy, Debug, PartialEq, Eq, Structural)]
pub enum ConsumptionOrder {
    /// Drain the earliest deposits first (the default).
    OldestFirst,
    /// Drain the latest deposits first.
    NewestFirst,
}

/// Splitting a summed range at a midpoint.
pub proof fn lemma_sum_liquidity_concat(records: Seq<LockboxPosition>, a: int, b: int, c: int)
    requires
        a <= b <= c,
    ensures
        sum_liquidity(records, a, c) == sum_liquidity(records, a, b) + sum_liquidity(records, b, c),
    decreases b - a,
{
    if a < b {
        lemma_sum_liquidity_concat(records, a + 1, b, c);
    }
}

/// A range of spent records contributes nothing to the sum.
pub proof fn lemma_sum_liquidity_zeros(records: Seq<LockboxPosition>, a: int, b: int)
    requires
        forall|i: int| a <= i < b ==> #[trigger] records[i].position_liquidity == 0,
    ensures
        sum_liquidity(records, a, b) == 0,
    decreases b - a,
{
    if a < b {
        lemma_sum_liquidity_zeros(records, a + 1, b);
    }
}

/// The singleton ledger: the bridged-token identity, the aggregate liquidity
/// counter, the first-active cursor and the ordered records.
pub struct LiquidityLockbox {
    /// Identity of the fungible bridged token this ledger backs.
    pub bridged_token_mint: AccountId,
    /// Total liquidity across all active records.
    pub total_liquidity: u64,
    /// Index of the oldest record not yet closed; everything before it is
    /// spent and permanently skipped.
    pub first_available_position_account_index: u32,
    /// Number of records ever created (also the next identifier).
    pub num_position_accounts: u32,
    /// The records, in deposit order, indexed by their identifiers.
    pub position_records: Vec<LockboxPosition>,
    /// Which end of the record list withdrawals consume first.
    pub consumption_order: ConsumptionOrder,
}

impl LiquidityLockbox {
    /// Index of the first-active cursor, as a mathematical integer.
    pub open spec fn first(self) -> int {
        self.first_available_position_account_index as int
    }

    /// Number of records, as a mathematical integer.
    pub open spec fn num(self) -> int {
        self.num_position_accounts as int
    }

    /// Well-formedness: the record arena matches the counters, identifiers
    /// are the record indices, spent records before the cursor hold nothing,
    /// and `total_liquidity` is exactly the liquidity left in the active
    /// range. This is the ledger's conservation invariant.
    pub open spec fn wf(self) -> bool {
        &&& self.position_records.len() == self.num()
        &&& 0 <= self.first() <= self.num()
        &&& forall|i: int| 0 <= i < self.num() ==> #[trigger] self.position_records[i].id == i
        &&& forall|i: int| 0 <= i < self.first() ==>
            #[trigger] self.position_records[i].position_liquidity == 0
        &&& self.total_liquidity == sum_liquidity(self.position_records@, self.first(), self.num())
    }

    /// Creates an empty ledger for the given bridged-token mint, consuming
    /// oldest deposits first on withdrawal.
    pub fn initialize(bridged_token_mint: AccountId) -> (r: LiquidityLockbox)
        ensures
            r.wf(),
            r.bridged_token_mint == bridged_token_mint,
            r.total_liquidity == 0,
            r.num_position_accounts == 0,
            r.first_available_position_account_index == 0,
            r.position_records@ == Seq::<LockboxPosition>::empty(),
            r.consumption_order == ConsumptionOrder::OldestFirst,
    {
        LiquidityLockbox::initialize_with_order(bridged_token_mint, ConsumptionOrder::OldestFirst)
    }

    /// Creates an empty ledger with an explicit consumption policy.
    pub fn initialize_with_order(
        bridged_token_mint: AccountId,
        consumption_order: ConsumptionOrder,
    ) -> (r: LiquidityLockbox)
        ensures
            r.wf(),
            r.bridged_token_mint == bridged_token_mint,
            r.total_liquidity == 0,
            r.num_position_accounts == 0,
            r.first_available_position_account_index == 0,
            r.position_records@ == Seq::<LockboxPosition>::empty(),
            r.consumption_order == consumption_order,
    {
        let r = LiquidityLockbox {
            bridged_token_mint,
            total_liquidity: 0,
            first_available_position_account_index: 0,
            num_position_accounts: 0,
            position_records: Vec::new(),
            consumption_order,
        };
        proof {
            assert(r.position_records@ =~= Seq::<LockboxPosition>::empty());
        }
        r
    }

    /// Aggregate view: the total liquidity counter.
    pub fn total(&self) -> (r: u64)
        ensures
            r == self.total_liquidity,
    {
        self.total_liquidity
    }

    /// Read access to one record.
    pub fn get(&self, id: u32) -> (r: Option<LockboxPosition>)
        requires
            self.wf(),
        ensures
            match r {
                Some(rec) => id < self.num() && rec == self.position_records[id as int],
                None => id >= self.num(),
            },
    {
        if id < self.num_position_accounts {
            Some(self.position_records[id as usize])
        } else {
            None
        }
    }

    /// Removes a record's remaining liquidity from the ledger, zeroing it in
    /// place (identifiers are never reused, so the slot stays). Returns the
    /// record as it stood; used when an underlying position is closed
    /// outright.
    pub fn remove(&mut self, id: u32) -> (r: Result<LockboxPosition, ErrorCode>)
        requires
            old(self).wf(),
        ensures
            r is Ok <==> id < old(self).num(),
            match r {
                Ok(record) => {
                    &&& record == old(self).position_records[id as int]
                    &&& final(self).wf()
                    &&& final(self).bridged_token_mint == old(self).bridged_token_mint
                    &&& final(self).consumption_order == old(self).consumption_order
                    &&& final(self).first() == old(self).first()
                    &&& final(self).num() == old(self).num()
                    &&& final(self).total_liquidity == old(self).total_liquidity
                        - record.position_liquidity
                    &&& final(self).position_records@ == old(self).position_records@.update(
                        id as int,
                        LockboxPosition { position_liquidity: 0, ..record },
                    )
                },
                Err(e) => e == ErrorCode::WrongPositionId && *final(self) == *old(self),
            },
    {
        if id >= self.num_position_accounts {
            return Err(ErrorCode::WrongPositionId);
        }
        let idx = id as usize;
        let record = self.position_records[idx];
        self.position_records[idx] = LockboxPosition { position_liquidity: 0, ..record };
        proof {
            if id as int >= self.first() {
                lemma_sum_liquidity_bounds(
                    old(self).position_records@,
                    old(self).first(),
                    old(self).num(),
                );
                lemma_sum_liquidity_update(
                    old(self).position_records@,
                    self.first(),
                    self.num(),
                    id as int,
                    self.position_records@[id as int],
                );
            } else {
                // A record before the cursor is already empty: zeroing it
                // leaves the summed range untouched.
                lemma_sum_liquidity_agree(
                    self.position_records@,
                    old(self).position_records@,
                    self.first(),
                    self.num(),
                );
            }
        }
        self.total_liquidity = self.total_liquidity - record.position_liquidity;
        Ok(record)
    }
}

/// Conservation law of the ledger: in every well-formed state the aggregate
/// counter equals the summed liquidity of the active records.
pub proof fn lemma_total_liquidity_is_sum(l: LiquidityLockbox)
    requires
        l.wf(),
    ensures
        l.total_liquidity == sum_liquidity(l.position_records@, l.first(), l.num()),
{
}

/// The bridged-token peg across a deposit. Bridged tokens are minted
/// one-to-one with deposited liquidity (base units; the token's decimals
/// only fix display scaling), so a supply that equalled `total_liquidity`
/// before a deposit that minted `minted` tokens equals it again once the
/// host mint applies: the ledger raises `total_liquidity` by exactly the
/// minted amount.
pub proof fn lemma_supply_peg_deposit(
    supply: int,
    pre: LiquidityLockbox,
    post: LiquidityLockbox,
    minted: u64,
)
    requires
        supply == pre.total_liquidity,
        post.total_liquidity == pre.total_liquidity + minted,
    ensures
        supply + minted == post.total_liquidity,
{
}

/// The bridged-token peg across a withdrawal: bridged tokens are burned
/// one-to-one with withdrawn liquidity, so a supply that equalled
/// `total_liquidity` before a withdrawal that burned `burned` tokens equals
/// it again once the host burn applies.
pub proof fn lemma_supply_peg_withdraw(
    supply: int,
    pre: LiquidityLockbox,
    post: LiquidityLockbox,
    burned: u64,
)
    requires
        supply == pre.total_liquidity,
        post.total_liquidity == pre.total_liquidity - burned,
    ensures
        supply - burned == post.total_liquidity,
{
}

} // verus!
