//! Withdrawal operations and the allocation query.
//!
//! A withdrawal burns bridged tokens and consumes the same amount of
//! liquidity from the ledger, in the consumption order the ledger was
//! created with (oldest-first by default, newest-first as the alternative).
//! Either way the selection is one shared function per policy
//! (`selection_entries` dispatches to `alloc_seq` or `alloc_seq_down`): the
//! read-only query reports exactly the records and amounts that a
//! withdrawal of the same amount consumes, so the two can never drift
//! apart. A record drained to zero is closed; under oldest-first
//! consumption the first-active cursor moves past it for good.

use vstd::prelude::*;
use crate::errors::ErrorCode;
use crate::state::{
    AccountId, ConsumptionOrder, LiquidityLockbox, LockboxPosition, lemma_sum_liquidity_agree,
    lemma_sum_liquidity_bounds, lemma_sum_liquidity_concat, lemma_sum_liquidity_snoc,
    lemma_sum_liquidity_update, lemma_sum_liquidity_zeros, sum_liquidity,
};

verus! {

/// The records a withdrawal of `amount` touches, walking from `first`
/// oldest-first: each entry carries the record (as it stood before the
/// withdrawal) and the liquidity taken from it. Zero records are passed
/// over; the last entry is clipped to the exact remainder needed.
pub open spec fn alloc_seq(records: Seq<LockboxPosition>, first: int, amount: int) -> Seq<
    (LockboxPosition, u64),
>
    decreases records.len() - first,
{
    if amount <= 0 || first < 0 || first >= records.len() {
        Seq::empty()
    } else if records[first].position_liquidity == 0 {
        alloc_seq(records, first + 1, amount)
    } else if amount < records[first].position_liquidity {
        seq![(records[first], amount as u64)]
    } else {
        seq![(records[first], records[first].position_liquidity)] + alloc_seq(
            records.update(first, LockboxPosition { position_liquidity: 0, ..records[first] }),
            first + 1,
            amount - records[first].position_liquidity,
        )
    }
}

/// The record arena after a withdrawal of `amount`: fully consumed records
/// are zeroed in place, a partially consumed one keeps the remainder.
pub open spec fn alloc_records(records: Seq<LockboxPosition>, first: int, amount: int) -> Seq<
    LockboxPosition,
>
    decreases records.len() - first,
{
    if amount <= 0 || first < 0 || first >= records.len() {
        records
    } else if records[first].position_liquidity == 0 {
        alloc_records(records, first + 1, amount)
    } else if amount < records[first].position_liquidity {
        records.update(
            first,
            LockboxPosition {
                position_liquidity: (records[first].position_liquidity - amount) as u64,
                ..records[first]
            },
        )
    } else {
        alloc_records(
            records.update(first, LockboxPosition { position_liquidity: 0, ..records[first] }),
            first + 1,
            amount - records[first].position_liquidity,
        )
    }
}

/// The first-active cursor after a withdrawal of `amount`: it advances past
/// every record the withdrawal drains or finds already empty.
pub open spec fn alloc_first(records: Seq<LockboxPosition>, first: int, amount: int) -> int
    decreases records.len() - first,
{
    if amount <= 0 || first < 0 || first >= records.len() {
        first
    } else if records[first].position_liquidity == 0 {
        alloc_first(records, first + 1, amount)
    } else if amount < records[first].position_liquidity {
        first
    } else {
        alloc_first(
            records.update(first, LockboxPosition { position_liquidity: 0, ..records[first] }),
            first + 1,
            amount - records[first].position_liquidity,
        )
    }
}

/// The records a withdrawal of `amount` touches under newest-first
/// consumption, walking from `idx` downward: the mirror image of
/// `alloc_seq`.
pub open spec fn alloc_seq_down(records: Seq<LockboxPosition>, idx: int, amount: int) -> Seq<
    (LockboxPosition, u64),
>
    decreases idx + 1,
{
    if amount <= 0 || idx < 0 || idx >= records.len() {
        Seq::empty()
    } else if records[idx].position_liquidity == 0 {
        alloc_seq_down(records, idx - 1, amount)
    } else if amount < records[idx].position_liquidity {
        seq![(records[idx], amount as u64)]
    } else {
        seq![(records[idx], records[idx].position_liquidity)] + alloc_seq_down(
            records.update(idx, LockboxPosition { position_liquidity: 0, ..records[idx] }),
            idx - 1,
            amount - records[idx].position_liquidity,
        )
    }
}

/// The record arena after a newest-first withdrawal of `amount`.
pub open spec fn alloc_records_down(records: Seq<LockboxPosition>, idx: int, amount: int) -> Seq<
    LockboxPosition,
>
    decreases idx + 1,
{
    if amount <= 0 || idx < 0 || idx >= records.len() {
        records
    } else if records[idx].position_liquidity == 0 {
        alloc_records_down(records, idx - 1, amount)
    } else if amount < records[idx].position_liquidity {
        records.update(
            idx,
            LockboxPosition {
                position_liquidity: (records[idx].position_liquidity - amount) as u64,
                ..records[idx]
            },
        )
    } else {
        alloc_records_down(
            records.update(idx, LockboxPosition { position_liquidity: 0, ..records[idx] }),
            idx - 1,
            amount - records[idx].position_liquidity,
        )
    }
}

/// The selection a withdrawal of `amount` makes against ledger `l`: the one
/// function both the withdrawal and the allocation query answer to, in the
/// consumption order the ledger was created with.
pub open spec fn selection_entries(l: LiquidityLockbox, amount: u64) -> Seq<
    (LockboxPosition, u64),
> {
    match l.consumption_order {
        ConsumptionOrder::OldestFirst => alloc_seq(l.position_records@, l.first(), amount as int),
        ConsumptionOrder::NewestFirst => alloc_seq_down(
            l.position_records@,
            l.num() - 1,
            amount as int,
        ),
    }
}

/// The record arena after a withdrawal of `amount` against ledger `l`.
pub open spec fn selection_records(l: LiquidityLockbox, amount: u64) -> Seq<LockboxPosition> {
    match l.consumption_order {
        ConsumptionOrder::OldestFirst => alloc_records(
            l.position_records@,
            l.first(),
            amount as int,
        ),
        ConsumptionOrder::NewestFirst => alloc_records_down(
            l.position_records@,
            l.num() - 1,
            amount as int,
        ),
    }
}

/// The first-active cursor after a withdrawal of `amount` against ledger
/// `l`; only oldest-first consumption moves it.
pub open spec fn selection_first(l: LiquidityLockbox, amount: u64) -> int {
    match l.consumption_order {
        ConsumptionOrder::OldestFirst => alloc_first(l.position_records@, l.first(), amount as int),
        ConsumptionOrder::NewestFirst => l.first(),
    }
}

/// Sum of the amounts taken across allocation entries.
pub open spec fn sum_takes(entries: Seq<(LockboxPosition, u64)>) -> int
    decreases entries.len(),
{
    if entries.len() == 0 {
        0
    } else {
        entries[0].1 + sum_takes(entries.drop_first())
    }
}

/// Conservation of a withdrawal: when the ledger can cover `amount`, the
/// amounts taken across the selected records sum to exactly `amount` — no
/// unit is burned without being withdrawn, none is withdrawn twice.
pub proof fn lemma_alloc_takes_sum(records: Seq<LockboxPosition>, first: int, amount: int)
    requires
        0 <= first,
        0 <= amount,
        amount <= sum_liquidity(records, first, records.len() as int),
    ensures
        sum_takes(alloc_seq(records, first, amount)) == amount,
    decreases records.len() - first,
{
    let len = records.len() as int;
    if amount <= 0 {
    } else if first >= len {
        assert(sum_liquidity(records, first, len) == 0);
    } else if records[first].position_liquidity == 0 {
        lemma_alloc_takes_sum(records, first + 1, amount);
    } else if amount < records[first].position_liquidity {
        let entries = alloc_seq(records, first, amount);
        assert(entries.drop_first() =~= Seq::<(LockboxPosition, u64)>::empty());
        assert(sum_takes(Seq::<(LockboxPosition, u64)>::empty()) == 0);
        assert(sum_takes(entries) == entries[0].1 + sum_takes(entries.drop_first()));
    } else {
        let taken = records[first].position_liquidity as int;
        let zeroed = records.update(
            first,
            LockboxPosition { position_liquidity: 0, ..records[first] },
        );
        lemma_sum_liquidity_agree(zeroed, records, first + 1, len);
        lemma_alloc_takes_sum(zeroed, first + 1, amount - taken);
        let head = seq![(records[first], records[first].position_liquidity)];
        let rest = alloc_seq(zeroed, first + 1, amount - taken);
        assert((head + rest).drop_first() =~= rest);
        assert(sum_takes(head + rest) == taken + sum_takes(rest));
        assert(alloc_seq(records, first, amount) == head + rest);
    }
}

/// The selection only touches real, active records: each entry of an
/// allocation is the ledger's record at the entry's identifier, lies at or
/// after the cursor, and gives up a positive amount no larger than it holds.
/// In particular a record whose liquidity has reached zero is never
/// selected.
pub proof fn lemma_allocation_selects_active_records(
    records: Seq<LockboxPosition>,
    first: int,
    amount: int,
)
    requires
        0 <= first,
        forall|i: int| 0 <= i < records.len() ==> #[trigger] records[i].id == i,
    ensures
        forall|j: int|
            0 <= j < alloc_seq(records, first, amount).len() ==> {
                let e = #[trigger] alloc_seq(records, first, amount)[j];
                &&& first <= e.0.id < records.len()
                &&& e.0 == records[e.0.id as int]
                &&& 0 < e.1 <= e.0.position_liquidity
            },
    decreases records.len() - first,
{
    let entries = alloc_seq(records, first, amount);
    if amount <= 0 || first >= records.len() {
    } else if records[first].position_liquidity == 0 {
        lemma_allocation_selects_active_records(records, first + 1, amount);
        let tail = alloc_seq(records, first + 1, amount);
        assert forall|j: int| 0 <= j < entries.len() implies {
            let e = #[trigger] entries[j];
            &&& first <= e.0.id < records.len()
            &&& e.0 == records[e.0.id as int]
            &&& 0 < e.1 <= e.0.position_liquidity
        } by {
            assert(entries[j] == tail[j]);
        }
    } else if amount < records[first].position_liquidity {
    } else {
        let zeroed = records.update(
            first,
            LockboxPosition { position_liquidity: 0, ..records[first] },
        );
        assert(forall|i: int| 0 <= i < zeroed.len() ==> #[trigger] zeroed[i].id == i);
        lemma_allocation_selects_active_records(zeroed, first + 1, amount
            - records[first].position_liquidity);
        let rest = alloc_seq(zeroed, first + 1, amount - records[first].position_liquidity);
        assert forall|j: int| 0 <= j < entries.len() implies {
            let e = #[trigger] entries[j];
            &&& first <= e.0.id < records.len()
            &&& e.0 == records[e.0.id as int]
            &&& 0 < e.1 <= e.0.position_liquidity
        } by {
            if j == 0 {
                assert(entries[0] == (records[first], records[first].position_liquidity));
            } else {
                assert(entries[j] == rest[j - 1]);
            }
        }
    }
}

/// Conservation of a newest-first withdrawal: the mirror image of
/// `lemma_alloc_takes_sum`, walking from `idx` downward.
pub proof fn lemma_alloc_takes_sum_down(records: Seq<LockboxPosition>, idx: int, amount: int)
    requires
        idx < records.len(),
        0 <= amount,
        amount <= sum_liquidity(records, 0, idx + 1),
    ensures
        sum_takes(alloc_seq_down(records, idx, amount)) == amount,
    decreases idx + 1,
{
    if amount <= 0 {
    } else if idx < 0 {
        assert(sum_liquidity(records, 0, idx + 1) == 0);
    } else if records[idx].position_liquidity == 0 {
        lemma_sum_liquidity_snoc(records, 0, idx);
        lemma_alloc_takes_sum_down(records, idx - 1, amount);
    } else if amount < records[idx].position_liquidity {
        let entries = alloc_seq_down(records, idx, amount);
        assert(entries.drop_first() =~= Seq::<(LockboxPosition, u64)>::empty());
        assert(sum_takes(Seq::<(LockboxPosition, u64)>::empty()) == 0);
        assert(sum_takes(entries) == entries[0].1 + sum_takes(entries.drop_first()));
    } else {
        let taken = records[idx].position_liquidity as int;
        let zeroed = records.update(
            idx,
            LockboxPosition { position_liquidity: 0, ..records[idx] },
        );
        lemma_sum_liquidity_snoc(records, 0, idx);
        lemma_sum_liquidity_agree(zeroed, records, 0, idx);
        lemma_alloc_takes_sum_down(zeroed, idx - 1, amount - taken);
        let head = seq![(records[idx], records[idx].position_liquidity)];
        let rest = alloc_seq_down(zeroed, idx - 1, amount - taken);
        assert((head + rest).drop_first() =~= rest);
        assert(sum_takes(head + rest) == taken + sum_takes(rest));
        assert(alloc_seq_down(records, idx, amount) == head + rest);
    }
}

/// Newest-first selection also touches only real, active records, walking
/// downward from `idx`.
pub proof fn lemma_allocation_selects_active_records_down(
    records: Seq<LockboxPosition>,
    idx: int,
    amount: int,
)
    requires
        idx < records.len(),
        forall|i: int| 0 <= i < records.len() ==> #[trigger] records[i].id == i,
    ensures
        forall|j: int|
            0 <= j < alloc_seq_down(records, idx, amount).len() ==> {
                let e = #[trigger] alloc_seq_down(records, idx, amount)[j];
                &&& 0 <= e.0.id <= idx
                &&& e.0 == records[e.0.id as int]
                &&& 0 < e.1 <= e.0.position_liquidity
            },
    decreases idx + 1,
{
    let entries = alloc_seq_down(records, idx, amount);
    if amount <= 0 || idx < 0 {
    } else if records[idx].position_liquidity == 0 {
        lemma_allocation_selects_active_records_down(records, idx - 1, amount);
        let tail = alloc_seq_down(records, idx - 1, amount);
        assert forall|j: int| 0 <= j < entries.len() implies {
            let e = #[trigger] entries[j];
            &&& 0 <= e.0.id <= idx
            &&& e.0 == records[e.0.id as int]
            &&& 0 < e.1 <= e.0.position_liquidity
        } by {
            assert(entries[j] == tail[j]);
        }
    } else if amount < records[idx].position_liquidity {
    } else {
        let zeroed = records.update(
            idx,
            LockboxPosition { position_liquidity: 0, ..records[idx] },
        );
        assert(forall|i: int| 0 <= i < zeroed.len() ==> #[trigger] zeroed[i].id == i);
        lemma_allocation_selects_active_records_down(zeroed, idx - 1, amount
            - records[idx].position_liquidity);
        let rest = alloc_seq_down(zeroed, idx - 1, amount - records[idx].position_liquidity);
        assert forall|j: int| 0 <= j < entries.len() implies {
            let e = #[trigger] entries[j];
            &&& 0 <= e.0.id <= idx
            &&& e.0 == records[e.0.id as int]
            &&& 0 < e.1 <= e.0.position_liquidity
        } by {
            if j == 0 {
                assert(entries[0] == (records[idx], records[idx].position_liquidity));
            } else {
                assert(entries[j] == rest[j - 1]);
            }
        }
    }
}

/// Conservation of a withdrawal under the ledger's configured policy: when
/// the ledger can cover `amount`, the amounts taken across the selected
/// records sum to exactly `amount` — no unit is burned without being
/// withdrawn, none is withdrawn twice.
pub proof fn lemma_selection_takes_sum(l: LiquidityLockbox, amount: u64)
    requires
        l.wf(),
        amount <= l.total_liquidity,
    ensures
        sum_takes(selection_entries(l, amount)) == amount,
{
    match l.consumption_order {
        ConsumptionOrder::OldestFirst => {
            lemma_alloc_takes_sum(l.position_records@, l.first(), amount as int);
        },
        ConsumptionOrder::NewestFirst => {
            lemma_sum_liquidity_zeros(l.position_records@, 0, l.first());
            lemma_sum_liquidity_concat(l.position_records@, 0, l.first(), l.num());
            lemma_alloc_takes_sum_down(l.position_records@, l.num() - 1, amount as int);
        },
    }
}

/// The configured selection only touches real, active records: each entry
/// of an allocation is the ledger's record at the entry's identifier and
/// gives up a positive amount no larger than it holds. In particular a
/// record whose liquidity has reached zero is never selected.
pub proof fn lemma_selection_is_active(l: LiquidityLockbox, amount: u64)
    requires
        l.wf(),
    ensures
        forall|j: int|
            0 <= j < selection_entries(l, amount).len() ==> {
                let e = #[trigger] selection_entries(l, amount)[j];
                &&& 0 <= e.0.id < l.num()
                &&& e.0 == l.position_records[e.0.id as int]
                &&& 0 < e.1 <= e.0.position_liquidity
            },
{
    let entries = selection_entries(l, amount);
    match l.consumption_order {
        ConsumptionOrder::OldestFirst => {
            lemma_allocation_selects_active_records(
                l.position_records@,
                l.first(),
                amount as int,
            );
            assert forall|j: int| 0 <= j < entries.len() implies {
                let e = #[trigger] entries[j];
                &&& 0 <= e.0.id < l.num()
                &&& e.0 == l.position_records[e.0.id as int]
                &&& 0 < e.1 <= e.0.position_liquidity
            } by {
                assert(entries[j] == alloc_seq(l.position_records@, l.first(), amount as int)[j]);
            }
        },
        ConsumptionOrder::NewestFirst => {
            lemma_allocation_selects_active_records_down(
                l.position_records@,
                l.num() - 1,
                amount as int,
            );
            assert forall|j: int| 0 <= j < entries.len() implies {
                let e = #[trigger] entries[j];
                &&& 0 <= e.0.id < l.num()
                &&& e.0 == l.position_records[e.0.id as int]
                &&& 0 < e.1 <= e.0.position_liquidity
            } by {
                assert(entries[j] == alloc_seq_down(
                    l.position_records@,
                    l.num() - 1,
                    amount as int,
                )[j]);
            }
        },
    }
}

/// What a successful withdrawal's per-record breakdown reports: one pair
/// (record identifier, liquidity taken) per selected record, in consumption
/// order.
pub open spec fn withdraw_breakdown_post(
    l: LiquidityLockbox,
    amount: u64,
    breakdown: Seq<(u32, u64)>,
) -> bool {
    let entries = selection_entries(l, amount);
    &&& breakdown.len() == entries.len()
    &&& forall|i: int|
        0 <= i < entries.len() ==> breakdown[i] == ((#[trigger] entries[i]).0.id, entries[i].1)
}

/// What a successful allocation query reports: for each selected record, in
/// consumption order, the liquidity a withdrawal would take from it, its
/// position account and its custody sub-account.
pub open spec fn query_allocation_post(
    l: LiquidityLockbox,
    amount: u64,
    takes: Seq<u64>,
    accounts: Seq<AccountId>,
    atas: Seq<AccountId>,
) -> bool {
    let entries = selection_entries(l, amount);
    &&& takes.len() == entries.len()
    &&& accounts.len() == entries.len()
    &&& atas.len() == entries.len()
    &&& forall|i: int|
        0 <= i < entries.len() ==> {
            &&& takes[i] == (#[trigger] entries[i]).1
            &&& accounts[i] == entries[i].0.position_account
            &&& atas[i] == entries[i].0.position_pda_ata
        }
}

/// The allocation query is idempotent: without an intervening mutation its
/// result is a function of the ledger state and the amount alone, so two
/// queries report identical allocations.
pub proof fn lemma_query_allocation_idempotent(
    l: LiquidityLockbox,
    amount: u64,
    takes1: Seq<u64>,
    accounts1: Seq<AccountId>,
    atas1: Seq<AccountId>,
    takes2: Seq<u64>,
    accounts2: Seq<AccountId>,
    atas2: Seq<AccountId>,
)
    requires
        query_allocation_post(l, amount, takes1, accounts1, atas1),
        query_allocation_post(l, amount, takes2, accounts2, atas2),
    ensures
        takes1 == takes2,
        accounts1 == accounts2,
        atas1 == atas2,
{
    let entries = selection_entries(l, amount);
    assert forall|i: int| 0 <= i < entries.len() implies takes1[i] == takes2[i] && accounts1[i]
        == accounts2[i] && atas1[i] == atas2[i] by {
        assert(takes1[i] == entries[i].1);
    }
    assert(takes1 =~= takes2);
    assert(accounts1 =~= accounts2);
    assert(atas1 =~= atas2);
}

/// Query and withdrawal stay in lockstep: they derive from the same
/// selection, so the query's i-th reported record and amount are the
/// withdrawal's i-th consumed record and amount.
pub proof fn lemma_query_matches_withdraw(
    l: LiquidityLockbox,
    amount: u64,
    breakdown: Seq<(u32, u64)>,
    takes: Seq<u64>,
    accounts: Seq<AccountId>,
    atas: Seq<AccountId>,
)
    requires
        withdraw_breakdown_post(l, amount, breakdown),
        query_allocation_post(l, amount, takes, accounts, atas),
    ensures
        breakdown.len() == takes.len(),
        forall|i: int| 0 <= i < takes.len() ==> #[trigger] breakdown[i].1 == takes[i],
{
    let entries = selection_entries(l, amount);
    assert forall|i: int| 0 <= i < takes.len() implies #[trigger] breakdown[i].1 == takes[i] by {
        assert(takes[i] == entries[i].1);
    }
}

impl LiquidityLockbox {
    /// Withdraws `amount` units of liquidity for the same amount of burned
    /// bridged tokens, consuming records in the ledger's configured order.
    /// Returns the burned amount and the per-record breakdown; every record
    /// drained to zero is closed, and under oldest-first consumption the
    /// cursor moves past it. Fails with `LiquidityZero` when `amount` is
    /// zero and `AmountExceedsTotalLiquidity` when the ledger cannot cover
    /// it; a failed withdrawal leaves the ledger unchanged.
    pub fn withdraw(&mut self, amount: u64) -> (r: Result<(u64, Vec<(u32, u64)>), ErrorCode>)
        requires
            old(self).wf(),
        ensures
            r is Ok <==> 0 < amount <= old(self).total_liquidity,
            match r {
                Ok(outcome) => {
                    &&& final(self).wf()
                    &&& outcome.0 == amount
                    &&& withdraw_breakdown_post(*old(self), amount, outcome.1@)
                    &&& final(self).bridged_token_mint == old(self).bridged_token_mint
                    &&& final(self).consumption_order == old(self).consumption_order
                    &&& final(self).num() == old(self).num()
                    &&& final(self).total_liquidity == old(self).total_liquidity - amount
                    &&& final(self).position_records@ == selection_records(*old(self), amount)
                    &&& final(self).first() == selection_first(*old(self), amount)
                },
                Err(e) => {
                    &&& *final(self) == *old(self)
                    &&& (e == ErrorCode::LiquidityZero <==> amount == 0)
                    &&& (e == ErrorCode::AmountExceedsTotalLiquidity <==> amount
                        > old(self).total_liquidity)
                },
            },
    {
        if amount == 0 {
            return Err(ErrorCode::LiquidityZero);
        }
        if amount > self.total_liquidity {
            return Err(ErrorCode::AmountExceedsTotalLiquidity);
        }
        let ghost l0 = *old(self);
        let mut remaining: u64 = amount;
        let mut breakdown: Vec<(u32, u64)> = Vec::new();
        let ghost mut done: Seq<(LockboxPosition, u64)> = Seq::empty();
        if self.consumption_order == ConsumptionOrder::OldestFirst {
        proof {
            assert(done + alloc_seq(self.position_records@, self.first(), remaining as int)
                =~= alloc_seq(l0.position_records@, l0.first(), amount as int));
        }
        while remaining > 0
            invariant
                self.wf(),
                self.bridged_token_mint == l0.bridged_token_mint,
                self.consumption_order == l0.consumption_order,
                self.num_position_accounts == l0.num_position_accounts,
                remaining <= self.total_liquidity,
                self.total_liquidity == l0.total_liquidity - (amount - remaining),
                remaining <= amount,
                done + alloc_seq(self.position_records@, self.first(), remaining as int)
                    == alloc_seq(l0.position_records@, l0.first(), amount as int),
                alloc_records(self.position_records@, self.first(), remaining as int)
                    == alloc_records(l0.position_records@, l0.first(), amount as int),
                alloc_first(self.position_records@, self.first(), remaining as int)
                    == alloc_first(l0.position_records@, l0.first(), amount as int),
                breakdown@.len() == done.len(),
                forall|i: int|
                    0 <= i < done.len() ==> breakdown@[i] == ((#[trigger] done[i]).0.id, done[i].1),
            decreases remaining, self.num() - self.first(),
        {
            proof {
                // A positive remainder is covered by the active range, so the
                // cursor has not reached the end.
                crate::state::lemma_sum_liquidity_bounds(
                    self.position_records@,
                    self.first(),
                    self.num(),
                );
                if self.first() >= self.num() {
                    assert(sum_liquidity(self.position_records@, self.first(), self.num()) == 0);
                }
            }
            let idx = self.first_available_position_account_index as usize;
            let record = self.position_records[idx];
            let ghost s_before = self.position_records@;
            let ghost f_before = self.first();
            let ghost rem_before = remaining as int;
            if record.position_liquidity == 0 {
                self.first_available_position_account_index =
                    self.first_available_position_account_index + 1;
            } else if remaining < record.position_liquidity {
                let taken = remaining;
                self.position_records[idx] = LockboxPosition {
                    position_liquidity: record.position_liquidity - taken,
                    ..record
                };
                self.total_liquidity = self.total_liquidity - taken;
                remaining = 0;
                breakdown.push((record.id, taken));
                proof {
                    done = done.push((record, taken));
                    lemma_sum_liquidity_update(
                        s_before,
                        f_before,
                        self.num(),
                        f_before,
                        self.position_records@[f_before],
                    );
                    assert(alloc_seq(s_before, f_before, rem_before)
                        =~= seq![(record, taken)]);
                    assert(done + alloc_seq(
                        self.position_records@,
                        self.first(),
                        remaining as int,
                    ) =~= (done.drop_last() + alloc_seq(s_before, f_before, rem_before)));
                }
            } else {
                let taken = record.position_liquidity;
                self.position_records[idx] = LockboxPosition {
                    position_liquidity: 0,
                    ..record
                };
                self.first_available_position_account_index =
                    self.first_available_position_account_index + 1;
                self.total_liquidity = self.total_liquidity - taken;
                remaining = remaining - taken;
                breakdown.push((record.id, taken));
                proof {
                    done = done.push((record, taken));
                    lemma_sum_liquidity_update(
                        s_before,
                        f_before,
                        self.num(),
                        f_before,
                        self.position_records@[f_before],
                    );
                    assert(sum_liquidity(self.position_records@, f_before, self.num())
                        == 0 + sum_liquidity(self.position_records@, f_before + 1, self.num()));
                    assert(alloc_seq(s_before, f_before, rem_before)
                        == seq![(record, taken)] + alloc_seq(
                        self.position_records@,
                        self.first(),
                        remaining as int,
                    ));
                    assert(done + alloc_seq(self.position_records@, self.first(), remaining as int)
                        =~= (done.drop_last() + alloc_seq(s_before, f_before, rem_before)));
                }
            }
        }
        proof {
            assert(done + alloc_seq(self.position_records@, self.first(), 0) =~= done);
        }
        } else {
        let mut end: u32 = self.num_position_accounts;
        proof {
            lemma_sum_liquidity_zeros(self.position_records@, 0, self.first());
            lemma_sum_liquidity_concat(self.position_records@, 0, self.first(), self.num());
            assert(done + alloc_seq_down(
                self.position_records@,
                end as int - 1,
                remaining as int,
            ) =~= alloc_seq_down(l0.position_records@, l0.num() - 1, amount as int));
        }
        while remaining > 0
            invariant
                self.wf(),
                self.bridged_token_mint == l0.bridged_token_mint,
                self.consumption_order == l0.consumption_order,
                self.num_position_accounts == l0.num_position_accounts,
                self.first_available_position_account_index
                    == l0.first_available_position_account_index,
                end as int <= self.num(),
                remaining <= self.total_liquidity,
                remaining <= sum_liquidity(self.position_records@, 0, end as int),
                self.total_liquidity == l0.total_liquidity - (amount - remaining),
                remaining <= amount,
                done + alloc_seq_down(self.position_records@, end as int - 1, remaining as int)
                    == alloc_seq_down(l0.position_records@, l0.num() - 1, amount as int),
                alloc_records_down(self.position_records@, end as int - 1, remaining as int)
                    == alloc_records_down(l0.position_records@, l0.num() - 1, amount as int),
                breakdown@.len() == done.len(),
                forall|i: int|
                    0 <= i < done.len() ==> breakdown@[i] == ((#[trigger] done[i]).0.id, done[i].1),
            decreases remaining, end,
        {
            proof {
                // A positive remainder is covered below the cursor, so it has
                // not reached the bottom.
                if end == 0 {
                    assert(sum_liquidity(self.position_records@, 0, 0) == 0);
                }
            }
            let idx = (end - 1) as usize;
            let record = self.position_records[idx];
            let ghost s_before = self.position_records@;
            let ghost rem_before = remaining as int;
            let ghost j = idx as int;
            if record.position_liquidity == 0 {
                proof {
                    lemma_sum_liquidity_snoc(s_before, 0, j);
                }
                end = end - 1;
            } else if remaining < record.position_liquidity {
                let taken = remaining;
                self.position_records[idx] = LockboxPosition {
                    position_liquidity: record.position_liquidity - taken,
                    ..record
                };
                self.total_liquidity = self.total_liquidity - taken;
                remaining = 0;
                breakdown.push((record.id, taken));
                proof {
                    done = done.push((record, taken));
                    // An active record lies at or after the first-active
                    // cursor, so the update stays inside the summed range.
                    assert(self.first() <= j) by {
                        if j < self.first() {
                            assert(s_before[j].position_liquidity == 0);
                        }
                    }
                    lemma_sum_liquidity_update(
                        s_before,
                        self.first(),
                        self.num(),
                        j,
                        self.position_records@[j],
                    );
                    lemma_sum_liquidity_bounds(self.position_records@, 0, end as int);
                    assert(alloc_seq_down(s_before, j, rem_before) =~= seq![(record, taken)]);
                    assert(done + alloc_seq_down(self.position_records@, j, 0)
                        =~= done.drop_last() + alloc_seq_down(s_before, j, rem_before));
                }
            } else {
                let taken = record.position_liquidity;
                self.position_records[idx] = LockboxPosition {
                    position_liquidity: 0,
                    ..record
                };
                end = end - 1;
                self.total_liquidity = self.total_liquidity - taken;
                remaining = remaining - taken;
                breakdown.push((record.id, taken));
                proof {
                    done = done.push((record, taken));
                    assert(self.first() <= j) by {
                        if j < self.first() {
                            assert(s_before[j].position_liquidity == 0);
                        }
                    }
                    lemma_sum_liquidity_update(
                        s_before,
                        self.first(),
                        self.num(),
                        j,
                        self.position_records@[j],
                    );
                    lemma_sum_liquidity_agree(self.position_records@, s_before, 0, j);
                    lemma_sum_liquidity_snoc(s_before, 0, j);
                    assert(alloc_seq_down(s_before, j, rem_before)
                        == seq![(record, taken)] + alloc_seq_down(
                        self.position_records@,
                        j - 1,
                        remaining as int,
                    ));
                    assert(done + alloc_seq_down(self.position_records@, j - 1, remaining as int)
                        =~= done.drop_last() + alloc_seq_down(s_before, j, rem_before));
                }
            }
        }
        proof {
            assert(done + alloc_seq_down(self.position_records@, end as int - 1, 0) =~= done);
        }
        }
        Ok((amount, breakdown))
    }

    /// Outcome of the targeted-withdrawal checks, in the order the operation
    /// applies them. `Ok` carries the liquidity the record keeps afterwards.
    pub open spec fn withdraw_from_position_outcome(self, id: u32, amount: u64) -> Result<
        u64,
        ErrorCode,
    > {
        if self.total_liquidity == 0 {
            Err(ErrorCode::TotalLiquidityZero)
        } else if amount == 0 {
            Err(ErrorCode::LiquidityZero)
        } else if id >= self.num() {
            Err(ErrorCode::WrongPositionId)
        } else if self.position_records[id as int].position_liquidity == 0 {
            Err(ErrorCode::LiquidityZero)
        } else if amount > self.position_records[id as int].position_liquidity {
            Err(ErrorCode::AmountExceedsPositionLiquidity)
        } else {
            Ok((self.position_records[id as int].position_liquidity - amount) as u64)
        }
    }

    /// Withdraws `amount` units of liquidity from one chosen record, for the
    /// same amount of burned bridged tokens. Returns the record's remaining
    /// liquidity; zero means the underlying position is exhausted and is to
    /// be closed. The request must not exceed that single record's
    /// liquidity (`AmountExceedsPositionLiquidity` otherwise); a failed
    /// withdrawal leaves the ledger unchanged.
    pub fn withdraw_from_position(&mut self, id: u32, amount: u64) -> (r: Result<u64, ErrorCode>)
        requires
            old(self).wf(),
        ensures
            match old(self).withdraw_from_position_outcome(id, amount) {
                Ok(remainder) => {
                    &&& r == Ok::<u64, ErrorCode>(remainder)
                    &&& final(self).wf()
                    &&& final(self).bridged_token_mint == old(self).bridged_token_mint
                    &&& final(self).consumption_order == old(self).consumption_order
                    &&& final(self).first() == old(self).first()
                    &&& final(self).num() == old(self).num()
                    &&& final(self).total_liquidity == old(self).total_liquidity - amount
                    &&& final(self).position_records@ == old(self).position_records@.update(
                        id as int,
                        LockboxPosition {
                            position_liquidity: remainder,
                            ..old(self).position_records[id as int]
                        },
                    )
                },
                Err(e) => r == Err::<u64, ErrorCode>(e) && *final(self) == *old(self),
            },
    {
        if self.total_liquidity == 0 {
            return Err(ErrorCode::TotalLiquidityZero);
        }
        if amount == 0 {
            return Err(ErrorCode::LiquidityZero);
        }
        if id >= self.num_position_accounts {
            return Err(ErrorCode::WrongPositionId);
        }
        let idx = id as usize;
        let record = self.position_records[idx];
        if record.position_liquidity == 0 {
            return Err(ErrorCode::LiquidityZero);
        }
        if amount > record.position_liquidity {
            return Err(ErrorCode::AmountExceedsPositionLiquidity);
        }
        let remainder = record.position_liquidity - amount;
        self.position_records[idx] = LockboxPosition {
            position_liquidity: remainder,
            ..record
        };
        proof {
            // The drained record is active: a spent one before the cursor
            // would have held nothing and been rejected above.
            assert(self.first() <= id as int);
            crate::state::lemma_sum_liquidity_bounds(
                old(self).position_records@,
                old(self).first(),
                old(self).num(),
            );
            lemma_sum_liquidity_update(
                old(self).position_records@,
                self.first(),
                self.num(),
                id as int,
                self.position_records@[id as int],
            );
        }
        self.total_liquidity = self.total_liquidity - amount;
        Ok(remainder)
    }

    /// Read-only allocation query: reports, without mutating the ledger, the
    /// liquidity amounts, position accounts and custody sub-accounts that a
    /// withdrawal of `amount` would consume, in consumption order with the
    /// last amount clipped to the remainder needed. Fails with
    /// `AmountExceedsTotalLiquidity` when the ledger cannot cover `amount`.
    pub fn get_liquidity_amounts_and_positions(&self, amount: u64) -> (r: Result<
        (Vec<u64>, Vec<AccountId>, Vec<AccountId>),
        ErrorCode,
    >)
        requires
            self.wf(),
        ensures
            r is Ok <==> amount <= self.total_liquidity,
            match r {
                Ok(t) => query_allocation_post(*self, amount, t.0@, t.1@, t.2@),
                Err(e) => e == ErrorCode::AmountExceedsTotalLiquidity,
            },
    {
        if amount > self.total_liquidity {
            return Err(ErrorCode::AmountExceedsTotalLiquidity);
        }
        let ghost entries = selection_entries(*self, amount);
        let mut takes: Vec<u64> = Vec::new();
        let mut accounts: Vec<AccountId> = Vec::new();
        let mut atas: Vec<AccountId> = Vec::new();
        let mut remaining: u64 = amount;
        let ghost mut done: Seq<(LockboxPosition, u64)> = Seq::empty();
        // The selection zeroes records as it walks; `records_now` is that
        // ghost walk, agreeing with the real records on the unvisited side.
        let ghost mut records_now: Seq<LockboxPosition> = self.position_records@;
        if self.consumption_order == ConsumptionOrder::OldestFirst {
        let mut cursor: u32 = self.first_available_position_account_index;
        proof {
            assert(done + alloc_seq(records_now, cursor as int, remaining as int) =~= entries);
        }
        while remaining > 0
            invariant
                self.wf(),
                cursor as int <= self.num(),
                records_now.len() == self.num(),
                forall|i: int|
                    cursor as int <= i < records_now.len() ==> #[trigger] records_now[i]
                        == self.position_records@[i],
                remaining <= sum_liquidity(records_now, cursor as int, self.num()),
                done + alloc_seq(records_now, cursor as int, remaining as int) == entries,
                takes@.len() == done.len(),
                accounts@.len() == done.len(),
                atas@.len() == done.len(),
                forall|i: int|
                    0 <= i < done.len() ==> {
                        &&& takes@[i] == (#[trigger] done[i]).1
                        &&& accounts@[i] == done[i].0.position_account
                        &&& atas@[i] == done[i].0.position_pda_ata
                    },
            decreases remaining, self.num() - cursor as int,
        {
            proof {
                crate::state::lemma_sum_liquidity_bounds(records_now, cursor as int, self.num());
                if cursor as int >= self.num() {
                    assert(sum_liquidity(records_now, cursor as int, self.num()) == 0);
                }
            }
            let idx = cursor as usize;
            let record = self.position_records[idx];
            let ghost rems = remaining as int;
            let ghost cur = cursor as int;
            if record.position_liquidity == 0 {
                cursor = cursor + 1;
            } else if remaining < record.position_liquidity {
                takes.push(remaining);
                accounts.push(record.position_account);
                atas.push(record.position_pda_ata);
                proof {
                    assert(alloc_seq(records_now, cur, rems) =~= seq![(record, remaining)]);
                    done = done.push((record, remaining));
                    assert(done + alloc_seq(records_now, cur, 0)
                        =~= done.drop_last() + alloc_seq(records_now, cur, rems));
                }
                remaining = 0;
            } else {
                let taken = record.position_liquidity;
                takes.push(taken);
                accounts.push(record.position_account);
                atas.push(record.position_pda_ata);
                proof {
                    let zeroed = records_now.update(
                        cur,
                        LockboxPosition { position_liquidity: 0, ..records_now[cur] },
                    );
                    assert(alloc_seq(records_now, cur, rems)
                        == seq![(record, taken)] + alloc_seq(zeroed, cur + 1, rems - taken));
                    done = done.push((record, taken));
                    assert(done + alloc_seq(zeroed, cur + 1, rems - taken)
                        =~= done.drop_last() + alloc_seq(records_now, cur, rems));
                    lemma_sum_liquidity_agree(zeroed, records_now, cur + 1, self.num());
                    assert(sum_liquidity(records_now, cur, self.num())
                        == taken + sum_liquidity(records_now, cur + 1, self.num()));
                    records_now = zeroed;
                }
                remaining = remaining - taken;
                cursor = cursor + 1;
            }
        }
        proof {
            assert(done + alloc_seq(records_now, cursor as int, 0) =~= done);
        }
        } else {
        let mut end: u32 = self.num_position_accounts;
        proof {
            lemma_sum_liquidity_zeros(records_now, 0, self.first());
            lemma_sum_liquidity_concat(records_now, 0, self.first(), self.num());
            assert(done + alloc_seq_down(records_now, end as int - 1, remaining as int)
                =~= entries);
        }
        while remaining > 0
            invariant
                self.wf(),
                end as int <= self.num(),
                records_now.len() == self.num(),
                forall|i: int|
                    0 <= i < end as int ==> #[trigger] records_now[i]
                        == self.position_records@[i],
                remaining <= sum_liquidity(records_now, 0, end as int),
                done + alloc_seq_down(records_now, end as int - 1, remaining as int) == entries,
                takes@.len() == done.len(),
                accounts@.len() == done.len(),
                atas@.len() == done.len(),
                forall|i: int|
                    0 <= i < done.len() ==> {
                        &&& takes@[i] == (#[trigger] done[i]).1
                        &&& accounts@[i] == done[i].0.position_account
                        &&& atas@[i] == done[i].0.position_pda_ata
                    },
            decreases remaining, end,
        {
            proof {
                if end == 0 {
                    assert(sum_liquidity(records_now, 0, 0) == 0);
                }
            }
            let idx = (end - 1) as usize;
            let record = self.position_records[idx];
            let ghost rems = remaining as int;
            let ghost j = idx as int;
            if record.position_liquidity == 0 {
                proof {
                    lemma_sum_liquidity_snoc(records_now, 0, j);
                }
                end = end - 1;
            } else if remaining < record.position_liquidity {
                takes.push(remaining);
                accounts.push(record.position_account);
                atas.push(record.position_pda_ata);
                proof {
                    assert(alloc_seq_down(records_now, j, rems) =~= seq![(record, remaining)]);
                    done = done.push((record, remaining));
                    assert(done + alloc_seq_down(records_now, j, 0)
                        =~= done.drop_last() + alloc_seq_down(records_now, j, rems));
                }
                remaining = 0;
            } else {
                let taken = record.position_liquidity;
                takes.push(taken);
                accounts.push(record.position_account);
                atas.push(record.position_pda_ata);
                proof {
                    let zeroed = records_now.update(
                        j,
                        LockboxPosition { position_liquidity: 0, ..records_now[j] },
                    );
                    assert(alloc_seq_down(records_now, j, rems)
                        == seq![(record, taken)] + alloc_seq_down(zeroed, j - 1, rems - taken));
                    done = done.push((record, taken));
                    assert(done + alloc_seq_down(zeroed, j - 1, rems - taken)
                        =~= done.drop_last() + alloc_seq_down(records_now, j, rems));
                    lemma_sum_liquidity_agree(zeroed, records_now, 0, j);
                    lemma_sum_liquidity_snoc(records_now, 0, j);
                    records_now = zeroed;
                }
                remaining = remaining - taken;
                end = end - 1;
            }
        }
        proof {
            assert(done + alloc_seq_down(records_now, end as int - 1, 0) =~= done);
        }
        }
        Ok((takes, accounts, atas))
    }
}

} // verus!
