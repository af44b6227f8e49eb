use vstd::prelude::*;
use crate::actions::{ArbitrationCall, DisputeHandoff, TokenCall};
use crate::errors::MarketplaceError;
use crate::records::{Address, Deal, Dispute, DisputeEntry, User, DISPUTE_FEE, GRACE_PERIOD,
    ONE_DAY};
use crate::table::{has_key, key_index, lemma_at_key, lemma_key_at, lemma_push, lemma_remove,
    lemma_total_push, lemma_total_remove, lemma_total_update, lemma_update,
    lemma_weight_le_total, table_at, table_find, table_total, unique_keys, weights_nonneg,
    TableEntry};

verus! {

/// The settlement fee retained on a deal of `amount` at `percent`, with
/// integer division truncating toward zero.
pub open spec fn fee_of(amount: u64, percent: u8) -> int {
    (amount * percent) / 100
}

/// What the beneficiary (or dispute winner) receives on settlement.
pub open spec fn payout_of(amount: u64, percent: u8) -> int {
    amount - fee_of(amount, percent)
}

/// When a beneficiary may force payout: the deal's duration (in days) plus
/// the grace period must have elapsed since acceptance.
pub open spec fn payment_due(d: Deal, now: u64) -> bool {
    now >= d.started_at + d.duration * ONE_DAY + GRACE_PERIOD
}

/// Settlement conserves value deal by deal: the retained fee and the payout
/// together account for exactly the escrowed amount, and neither exceeds it.
pub proof fn lemma_fee_payout_conservation(amount: u64, percent: u8)
    requires
        percent <= 100,
    ensures
        fee_of(amount, percent) + payout_of(amount, percent) == amount,
        0 <= fee_of(amount, percent) <= amount,
        0 <= payout_of(amount, percent) <= amount,
{
    assert(amount * percent >= 0) by (nonlinear_arith)
        requires
            amount >= 0 && percent >= 0,
    ;
    assert(amount * percent <= amount * 100) by (nonlinear_arith)
        requires
            amount >= 0 && percent <= 100,
    ;
    vstd::arithmetic::div_mod::lemma_div_is_ordered(amount * percent, amount * 100, 100);
    vstd::arithmetic::div_mod::lemma_div_multiples_vanish(amount as int, 100);
    vstd::arithmetic::div_mod::lemma_div_pos_is_pos(amount * percent, 100);
}

/// Compute the settlement fee at the current percentage, truncating toward
/// zero; the intermediate product is widened so it cannot overflow.
fn settlement_fee(amount: u64, percent: u8) -> (f: u64)
    requires
        percent <= 100,
    ensures
        f == fee_of(amount, percent),
        f <= amount,
{
    proof {
        lemma_fee_payout_conservation(amount, percent);
        assert((amount as int) * (percent as int) <= (u64::MAX as int) * 100) by (nonlinear_arith)
            requires
                amount <= u64::MAX && percent <= 100,
        ;
    }
    let wide: u128 = (amount as u128) * (percent as u128);
    let f: u128 = wide / 100;
    f as u64
}

/// The escrow and dispute-lifecycle engine.  It owns three ledgers — users,
/// deals and disputes — plus the owner-gated fee configuration.  All state
/// mutation passes through its operations, and `wf` is preserved by each.
/// The hosting environment clones it to snapshot a state, so that a failed
/// external call can abort an operation by discarding the mutated copy.
#[derive(Clone)]
pub struct Marketplace {
    pub owner: Address,
    /// The token custodian's address, recorded for the hosting environment.
    pub token: Address,
    /// The arbitration service's address, recorded for the hosting environment.
    pub protocol: Address,
    /// The next deal identifier to issue; strictly increasing, never reused.
    pub next_deal_id: u64,
    /// Settlement fee percentage, 0 to 100 inclusive.
    pub fee_percent: u8,
    pub users: Vec<User>,
    pub deals: Vec<Deal>,
    pub disputes: Vec<DisputeEntry>,
    /// Total funds ever pulled into escrow by deal acceptance.
    pub total_deposited: u128,
}

impl Marketplace {
    /// The user record for `a`, or the all-zero sentinel when unregistered.
    pub open spec fn spec_user(self, a: Address) -> User {
        if has_key(self.users@, a) {
            table_at(self.users@, a)
        } else {
            User::absent()
        }
    }

    /// The deal record for `id`, or the all-zero sentinel when absent.
    pub open spec fn spec_deal(self, id: u64) -> Deal {
        if has_key(self.deals@, id) {
            table_at(self.deals@, id)
        } else {
            Deal::absent()
        }
    }

    /// The dispute record for `id`, or the all-zero sentinel when absent.
    pub open spec fn spec_dispute(self, id: u64) -> Dispute {
        if has_key(self.disputes@, id) {
            table_at(self.disputes@, id).dispute
        } else {
            Dispute::absent()
        }
    }

    /// An address is registered iff it is nonzero and holds a user record.
    pub open spec fn is_registered(self, a: Address) -> bool {
        a != 0 && has_key(self.users@, a)
    }

    /// Some dispute record already references the deal `deal_id`.
    pub open spec fn has_dispute_for_deal(self, deal_id: u64) -> bool {
        exists|i: int|
            0 <= i < self.disputes@.len() && (#[trigger] self.disputes@[i]).dispute.deal_id
                == deal_id
    }

    /// The user ledger is well formed: unique nonzero addresses.
    pub open spec fn users_ok(self) -> bool {
        &&& unique_keys(self.users@)
        &&& forall|i: int|
            0 <= i < self.users@.len() ==> (#[trigger] self.users@[i]).address != 0
    }

    /// A live deal's record invariant.
    pub open spec fn deal_inv(self, d: Deal) -> bool {
        &&& 1 <= d.deal_id < self.next_deal_id
        &&& d.amount > 0
        &&& d.payer != 0
        &&& d.beneficiary != 0
        &&& self.is_registered(d.payer)
        &&& self.is_registered(d.beneficiary)
        &&& d.disputed ==> d.accepted
        &&& !d.accepted ==> d.started_at == 0 && !d.disputed
    }

    /// The deal ledger is well formed.
    pub open spec fn deals_ok(self) -> bool {
        &&& unique_keys(self.deals@)
        &&& forall|i: int| 0 <= i < self.deals@.len() ==> self.deal_inv(#[trigger] self.deals@[i])
    }

    /// A dispute record's invariant: it references a live, disputed deal whose
    /// payer raised it, and stays open while present.
    pub open spec fn dispute_inv(self, e: DisputeEntry) -> bool {
        &&& e.dispute.deal_id != 0
        &&& e.dispute.is_open
        &&& e.dispute.waiting_for_judges
        &&& has_key(self.deals@, e.dispute.deal_id)
        &&& table_at(self.deals@, e.dispute.deal_id).disputed
        &&& table_at(self.deals@, e.dispute.deal_id).payer == e.dispute.requester
    }

    /// The dispute ledger is well formed: unique dispute identifiers, at most
    /// one dispute per deal, and each record obeying `dispute_inv`.
    pub open spec fn disputes_ok(self) -> bool {
        &&& unique_keys(self.disputes@)
        &&& forall|i: int, j: int|
            #![trigger self.disputes@[i], self.disputes@[j]]
            0 <= i < j < self.disputes@.len() ==> self.disputes@[i].dispute.deal_id
                != self.disputes@[j].dispute.deal_id
        &&& forall|i: int|
            0 <= i < self.disputes@.len() ==> self.dispute_inv(#[trigger] self.disputes@[i])
    }

    /// Conservation: user balances plus unsettled escrow never exceed the
    /// total ever deposited.
    pub open spec fn conservation_ok(self) -> bool {
        table_total(self.users@) + table_total(self.deals@) <= self.total_deposited
    }

    /// The engine's global invariant, established by `init` and preserved by
    /// every operation.
    pub open spec fn wf(self) -> bool {
        &&& self.users_ok()
        &&& self.deals_ok()
        &&& self.disputes_ok()
        &&& self.next_deal_id >= 1
        &&& self.fee_percent <= 100
        &&& self.conservation_ok()
    }

    /// One-time setup.  Rejects a fee percentage over 100; the state machine
    /// relies on `fee_percent <= 100` so that a settlement fee never exceeds
    /// the escrowed amount.
    pub fn init(owner: Address, fee_percent: u8, token: Address, protocol: Address) -> (r: Result<
        Marketplace,
        MarketplaceError,
    >)
        ensures
            fee_percent > 100 ==> r == Err::<Marketplace, MarketplaceError>(
                MarketplaceError::InvalidInput,
            ),
            fee_percent <= 100 ==> {
                &&& r matches Ok(m)
                &&& m.wf()
                &&& m.owner == owner
                &&& m.fee_percent == fee_percent
                &&& m.token == token
                &&& m.protocol == protocol
                &&& m.next_deal_id == 1
                &&& m.total_deposited == 0
                &&& m.users@.len() == 0
                &&& m.deals@.len() == 0
                &&& m.disputes@.len() == 0
                &&& forall|a: Address| #[trigger] m.spec_user(a) == User::absent()
                &&& forall|id: u64| #[trigger] m.spec_deal(id) == Deal::absent()
                &&& forall|id: u64| #[trigger] m.spec_dispute(id) == Dispute::absent()
            },
    {
        if fee_percent > 100 {
            return Err(MarketplaceError::InvalidInput);
        }
        let m = Marketplace {
            owner,
            token,
            protocol,
            next_deal_id: 1,
            fee_percent,
            users: Vec::new(),
            deals: Vec::new(),
            disputes: Vec::new(),
            total_deposited: 0,
        };
        Ok(m)
    }

    /// Fetch a user record by identity; the all-zero sentinel means
    /// "not registered".
    pub fn get_user(&self, a: Address) -> (u: User)
        requires
            self.wf(),
        ensures
            u == self.spec_user(a),
    {
        match table_find(&self.users, a) {
            Some(i) => {
                proof {
                    lemma_key_at(self.users@, i as int);
                }
                self.users[i]
            },
            None => User::sentinel(),
        }
    }

    /// Fetch a deal record by identifier; the sentinel (`amount == 0`) means
    /// "does not exist / was deleted".
    pub fn get_deal(&self, id: u64) -> (d: Deal)
        requires
            self.wf(),
        ensures
            d == self.spec_deal(id),
    {
        match table_find(&self.deals, id) {
            Some(i) => {
                proof {
                    lemma_key_at(self.deals@, i as int);
                }
                self.deals[i]
            },
            None => Deal::sentinel(),
        }
    }

    /// Fetch a dispute record by identifier; the sentinel (`deal_id == 0`)
    /// means "does not exist".
    pub fn get_dispute(&self, id: u64) -> (d: Dispute)
        requires
            self.wf(),
        ensures
            d == self.spec_dispute(id),
    {
        match table_find(&self.disputes, id) {
            Some(i) => {
                proof {
                    lemma_key_at(self.disputes@, i as int);
                }
                self.disputes[i].dispute
            },
            None => Dispute::sentinel(),
        }
    }

    /// The arbitration service's address.
    pub fn protocol_address(&self) -> (r: Address)
        ensures
            r == self.protocol,
    {
        self.protocol
    }

    /// The next deal identifier to be issued.
    pub fn deal_id_counter(&self) -> (r: u64)
        ensures
            r == self.next_deal_id,
    {
        self.next_deal_id
    }

    /// The current settlement fee percentage.
    pub fn current_fee_percent(&self) -> (r: u8)
        ensures
            r == self.fee_percent,
    {
        self.fee_percent
    }

    /// Total funds ever pulled into escrow by deal acceptance.
    pub fn deposited_total(&self) -> (r: u128)
        ensures
            r == self.total_deposited,
    {
        self.total_deposited
    }

    /// The owner, token-custodian and arbitration-service configuration is
    /// untouched.
    pub open spec fn config_unchanged(pre: Self, post: Self) -> bool {
        &&& post.owner == pre.owner
        &&& post.token == pre.token
        &&& post.protocol == pre.protocol
    }

    /// Replacing a user record in place (same address) leaves every other
    /// address's record, and every other ledger, untouched.
    proof fn lemma_user_update(pre: Self, post: Self, i: int, v: User)
        requires
            pre.users_ok(),
            pre.deals_ok(),
            pre.disputes_ok(),
            0 <= i < pre.users@.len(),
            v.address == pre.users@[i].address,
            post.users@ == pre.users@.update(i, v),
            post.deals@ == pre.deals@,
            post.disputes@ == pre.disputes@,
            post.next_deal_id == pre.next_deal_id,
        ensures
            post.users_ok(),
            post.deals_ok(),
            post.disputes_ok(),
            pre.spec_user(v.address) == pre.users@[i],
            post.spec_user(v.address) == v,
            forall|b: Address| b != v.address ==> #[trigger] post.spec_user(b) == pre.spec_user(b),
            forall|k: u64| #[trigger] has_key(post.users@, k) == has_key(pre.users@, k),
            table_total(post.users@) == table_total(pre.users@) - pre.users@[i].weight()
                + v.weight(),
    {
        lemma_update(pre.users@, i, v);
        lemma_total_update(pre.users@, i, v);
        lemma_key_at(pre.users@, i);
        assert forall|j: int| 0 <= j < post.users@.len() implies (#[trigger] post.users@[j]).address
            != 0 by {
            if j != i {
                assert(post.users@[j] == pre.users@[j]);
            }
        }
        assert forall|k: u64| #[trigger] has_key(post.users@, k) == has_key(pre.users@, k) by {
            if k == v.address {
                assert(has_key(pre.users@, k));
                assert(has_key(post.users@, k));
            }
        }
        assert forall|b: Address| b != v.address implies #[trigger] post.spec_user(b)
            == pre.spec_user(b) by {
            if has_key(pre.users@, b) {
                assert(table_at(post.users@, b) == table_at(pre.users@, b));
            }
        }
        assert forall|j: int| 0 <= j < post.deals@.len() implies post.deal_inv(
            #[trigger] post.deals@[j],
        ) by {
            assert(pre.deal_inv(pre.deals@[j]));
        }
        assert forall|j: int| 0 <= j < post.disputes@.len() implies post.dispute_inv(
            #[trigger] post.disputes@[j],
        ) by {
            assert(pre.dispute_inv(pre.disputes@[j]));
        }
    }

    /// Appending a fresh user record leaves every other address's record, and
    /// every other ledger, untouched.
    proof fn lemma_user_push(pre: Self, post: Self, v: User)
        requires
            pre.users_ok(),
            pre.deals_ok(),
            pre.disputes_ok(),
            v.address != 0,
            !has_key(pre.users@, v.address),
            post.users@ == pre.users@.push(v),
            post.deals@ == pre.deals@,
            post.disputes@ == pre.disputes@,
            post.next_deal_id == pre.next_deal_id,
        ensures
            post.users_ok(),
            post.deals_ok(),
            post.disputes_ok(),
            post.spec_user(v.address) == v,
            post.is_registered(v.address),
            forall|b: Address| b != v.address ==> #[trigger] post.spec_user(b) == pre.spec_user(b),
            forall|k: u64|
                k != v.address ==> #[trigger] has_key(post.users@, k) == has_key(pre.users@, k),
            table_total(post.users@) == table_total(pre.users@) + v.weight(),
    {
        lemma_push(pre.users@, v);
        lemma_total_push(pre.users@, v);
        assert forall|j: int| 0 <= j < post.users@.len() implies (#[trigger] post.users@[j]).address
            != 0 by {
            if j < pre.users@.len() {
                assert(post.users@[j] == pre.users@[j]);
            } else {
                assert(post.users@[j] == v);
            }
        }
        assert forall|b: Address| b != v.address implies #[trigger] post.spec_user(b)
            == pre.spec_user(b) by {
            if has_key(pre.users@, b) {
                assert(table_at(post.users@, b) == table_at(pre.users@, b));
            }
        }
        assert forall|j: int| 0 <= j < post.deals@.len() implies post.deal_inv(
            #[trigger] post.deals@[j],
        ) by {
            assert(pre.deal_inv(pre.deals@[j]));
            assert(has_key(post.users@, pre.deals@[j].payer) == has_key(
                pre.users@,
                pre.deals@[j].payer,
            ));
        }
        assert forall|j: int| 0 <= j < post.disputes@.len() implies post.dispute_inv(
            #[trigger] post.disputes@[j],
        ) by {
            assert(pre.dispute_inv(pre.disputes@[j]));
        }
    }

    /// How `set_fee_percent` relates the states it joins: only the owner may
    /// reconfigure, the percentage is capped at 100, and nothing else moves.
    pub open spec fn set_fee_transition(
        pre: Self,
        post: Self,
        caller: Address,
        new_fee: u8,
        r: Result<(), MarketplaceError>,
    ) -> bool {
        if caller != pre.owner {
            &&& r == Err::<(), MarketplaceError>(MarketplaceError::Unauthorized)
            &&& post == pre
        } else if new_fee > 100 {
            &&& r == Err::<(), MarketplaceError>(MarketplaceError::InvalidInput)
            &&& post == pre
        } else {
            &&& r == Ok::<(), MarketplaceError>(())
            &&& post == (Marketplace { fee_percent: new_fee, ..pre })
        }
    }

    /// Owner-gated fee reconfiguration, effective immediately for all
    /// subsequent settlements.  Rejects a percentage over 100, which the
    /// settlement arithmetic relies on.
    pub fn set_fee_percent(&mut self, caller: Address, new_fee_percent: u8) -> (r: Result<
        (),
        MarketplaceError,
    >)
        requires
            old(self).wf(),
        ensures
            final(self).wf(),
            Self::set_fee_transition(*old(self), *final(self), caller, new_fee_percent, r),
    {
        if caller != self.owner {
            return Err(MarketplaceError::Unauthorized);
        }
        if new_fee_percent > 100 {
            return Err(MarketplaceError::InvalidInput);
        }
        self.fee_percent = new_fee_percent;
        Ok(())
    }

    /// How `register_user` relates the states it joins: a nonzero, not yet
    /// registered caller asking for at least one role gets a fresh record
    /// with a zero balance; everything else is untouched.
    pub open spec fn register_transition(
        pre: Self,
        post: Self,
        caller: Address,
        is_payer: bool,
        is_beneficiary: bool,
        is_judge: bool,
        r: Result<(), MarketplaceError>,
    ) -> bool {
        if caller == 0 {
            &&& r == Err::<(), MarketplaceError>(MarketplaceError::InvalidInput)
            &&& post == pre
        } else if pre.spec_user(caller).address == caller {
            &&& r == Err::<(), MarketplaceError>(MarketplaceError::AlreadyExists)
            &&& post == pre
        } else if !is_payer && !is_beneficiary && !is_judge {
            &&& r == Err::<(), MarketplaceError>(MarketplaceError::InvalidInput)
            &&& post == pre
        } else {
            &&& r == Ok::<(), MarketplaceError>(())
            &&& post.is_registered(caller)
            &&& post.spec_user(caller) == (User {
                address: caller,
                balance: 0,
                reputation_as_user: 0,
                reputation_as_judge: 0,
                is_payer,
                is_beneficiary,
                is_judge,
            })
            &&& forall|b: Address| b != caller ==> #[trigger] post.spec_user(b) == pre.spec_user(b)
            &&& post.deals@ == pre.deals@
            &&& post.disputes@ == pre.disputes@
            &&& post.next_deal_id == pre.next_deal_id
            &&& post.fee_percent == pre.fee_percent
            &&& post.total_deposited == pre.total_deposited
            &&& Self::config_unchanged(pre, post)
        }
    }

    /// Register the calling identity with the requested role flags.
    /// Re-registration fails with `AlreadyExists`; asking for no role at all,
    /// or registering the zero address, fails with `InvalidInput`.
    pub fn register_user(
        &mut self,
        caller: Address,
        is_payer: bool,
        is_beneficiary: bool,
        is_judge: bool,
    ) -> (r: Result<(), MarketplaceError>)
        requires
            old(self).wf(),
        ensures
            final(self).wf(),
            Self::register_transition(
                *old(self),
                *final(self),
                caller,
                is_payer,
                is_beneficiary,
                is_judge,
                r,
            ),
    {
        if caller == 0 {
            return Err(MarketplaceError::InvalidInput);
        }
        if table_find(&self.users, caller).is_some() {
            proof {
                lemma_at_key(self.users@, caller);
            }
            return Err(MarketplaceError::AlreadyExists);
        }
        if !is_payer && !is_beneficiary && !is_judge {
            return Err(MarketplaceError::InvalidInput);
        }
        let u = User {
            address: caller,
            balance: 0,
            reputation_as_user: 0,
            reputation_as_judge: 0,
            is_payer,
            is_beneficiary,
            is_judge,
        };
        self.users.push(u);
        proof {
            Self::lemma_user_push(*old(self), *self, u);
        }
        Ok(())
    }

    /// How `add_role` relates the states it joins: a registered caller asking
    /// for at least one role keeps its record with the requested roles added;
    /// roles are never removed, and re-adding a held role changes nothing.
    pub open spec fn add_role_transition(
        pre: Self,
        post: Self,
        caller: Address,
        is_payer: bool,
        is_beneficiary: bool,
        is_judge: bool,
        r: Result<(), MarketplaceError>,
    ) -> bool {
        if caller == 0 || pre.spec_user(caller).address != caller {
            &&& r == Err::<(), MarketplaceError>(MarketplaceError::Unauthorized)
            &&& post == pre
        } else if !is_payer && !is_beneficiary && !is_judge {
            &&& r == Err::<(), MarketplaceError>(MarketplaceError::InvalidInput)
            &&& post == pre
        } else {
            &&& r == Ok::<(), MarketplaceError>(())
            &&& post.spec_user(caller) == (User {
                is_payer: pre.spec_user(caller).is_payer || is_payer,
                is_beneficiary: pre.spec_user(caller).is_beneficiary || is_beneficiary,
                is_judge: pre.spec_user(caller).is_judge || is_judge,
                ..pre.spec_user(caller)
            })
            &&& forall|b: Address| b != caller ==> #[trigger] post.spec_user(b) == pre.spec_user(b)
            &&& post.deals@ == pre.deals@
            &&& post.disputes@ == pre.disputes@
            &&& post.next_deal_id == pre.next_deal_id
            &&& post.fee_percent == pre.fee_percent
            &&& post.total_deposited == pre.total_deposited
            &&& Self::config_unchanged(pre, post)
        }
    }

    /// Add roles to the calling identity's existing registration.  Adding is
    /// idempotent per role and roles are never removed.
    pub fn add_role(
        &mut self,
        caller: Address,
        is_payer: bool,
        is_beneficiary: bool,
        is_judge: bool,
    ) -> (r: Result<(), MarketplaceError>)
        requires
            old(self).wf(),
        ensures
            final(self).wf(),
            Self::add_role_transition(
                *old(self),
                *final(self),
                caller,
                is_payer,
                is_beneficiary,
                is_judge,
                r,
            ),
    {
        if caller == 0 {
            return Err(MarketplaceError::Unauthorized);
        }
        let i = match table_find(&self.users, caller) {
            Some(i) => i,
            None => {
                return Err(MarketplaceError::Unauthorized);
            },
        };
        if !is_payer && !is_beneficiary && !is_judge {
            return Err(MarketplaceError::InvalidInput);
        }
        proof {
            lemma_key_at(self.users@, i as int);
        }
        let prior = self.users[i];
        let v = User {
            is_payer: prior.is_payer || is_payer,
            is_beneficiary: prior.is_beneficiary || is_beneficiary,
            is_judge: prior.is_judge || is_judge,
            ..prior
        };
        self.users[i] = v;
        proof {
            Self::lemma_user_update(*old(self), *self, i as int, v);
        }
        Ok(())
    }

    /// How `withdraw` relates the states it joins: a registered caller with a
    /// positive balance has it zeroed, and the operation hands out the
    /// matching token payout; everything else is untouched.  The balance is
    /// zero *before* the environment performs the external transfer.
    pub open spec fn withdraw_transition(
        pre: Self,
        post: Self,
        caller: Address,
        r: Result<TokenCall, MarketplaceError>,
    ) -> bool {
        if caller == 0 || pre.spec_user(caller).address != caller {
            &&& r == Err::<TokenCall, MarketplaceError>(MarketplaceError::Unauthorized)
            &&& post == pre
        } else if pre.spec_user(caller).balance == 0 {
            &&& r == Err::<TokenCall, MarketplaceError>(MarketplaceError::InsufficientBalance)
            &&& post == pre
        } else {
            &&& r == Ok::<TokenCall, MarketplaceError>(
                TokenCall::PayOut { recipient: caller, amount: pre.spec_user(caller).balance },
            )
            &&& post.spec_user(caller) == (User { balance: 0, ..pre.spec_user(caller) })
            &&& forall|b: Address| b != caller ==> #[trigger] post.spec_user(b) == pre.spec_user(b)
            &&& post.deals@ == pre.deals@
            &&& post.disputes@ == pre.disputes@
            &&& post.next_deal_id == pre.next_deal_id
            &&& post.fee_percent == pre.fee_percent
            &&& post.total_deposited == pre.total_deposited
            &&& Self::config_unchanged(pre, post)
        }
    }

    /// Withdraw the caller's entire balance.  The ledger balance is zeroed
    /// first; the returned `TokenCall::PayOut` is performed by the hosting
    /// environment only after this operation has committed, so a reentering
    /// caller observes a zero balance.
    pub fn withdraw(&mut self, caller: Address) -> (r: Result<TokenCall, MarketplaceError>)
        requires
            old(self).wf(),
        ensures
            final(self).wf(),
            Self::withdraw_transition(*old(self), *final(self), caller, r),
    {
        if caller == 0 {
            return Err(MarketplaceError::Unauthorized);
        }
        let i = match table_find(&self.users, caller) {
            Some(i) => i,
            None => {
                return Err(MarketplaceError::Unauthorized);
            },
        };
        proof {
            lemma_key_at(self.users@, i as int);
        }
        let prior = self.users[i];
        if prior.balance == 0 {
            return Err(MarketplaceError::InsufficientBalance);
        }
        let v = User { balance: 0, ..prior };
        self.users[i] = v;
        proof {
            Self::lemma_user_update(*old(self), *self, i as int, v);
        }
        Ok(TokenCall::PayOut { recipient: caller, amount: prior.balance })
    }

    /// A user record that differs from the sentinel belongs to a registered,
    /// nonzero address equal to its own key.
    pub proof fn lemma_present_user(m: Self, a: Address)
        requires
            m.users_ok(),
            m.spec_user(a) != User::absent(),
        ensures
            m.is_registered(a),
            m.spec_user(a).address == a,
    {
        assert(has_key(m.users@, a));
        lemma_at_key(m.users@, a);
        let i = key_index(m.users@, a);
        assert(m.users@[i].address != 0);
    }

    /// Replacing a deal record in place (same identifier, same parties, still
    /// a live amount) leaves every other deal, and every other ledger,
    /// untouched.
    proof fn lemma_deal_update(pre: Self, post: Self, i: int, v: Deal)
        requires
            pre.users_ok(),
            pre.deals_ok(),
            pre.disputes_ok(),
            0 <= i < pre.deals@.len(),
            v.deal_id == pre.deals@[i].deal_id,
            v.payer == pre.deals@[i].payer,
            v.beneficiary == pre.deals@[i].beneficiary,
            v.amount > 0,
            v.disputed ==> v.accepted,
            !v.accepted ==> v.started_at == 0 && !v.disputed,
            pre.deals@[i].disputed ==> v.disputed,
            post.users@ == pre.users@,
            post.deals@ == pre.deals@.update(i, v),
            post.disputes@ == pre.disputes@,
            post.next_deal_id == pre.next_deal_id,
        ensures
            post.users_ok(),
            post.deals_ok(),
            post.disputes_ok(),
            pre.spec_deal(v.deal_id) == pre.deals@[i],
            post.spec_deal(v.deal_id) == v,
            forall|id: u64| id != v.deal_id ==> #[trigger] post.spec_deal(id) == pre.spec_deal(id),
            table_total(post.deals@) == table_total(pre.deals@) - pre.deals@[i].weight()
                + v.weight(),
    {
        lemma_update(pre.deals@, i, v);
        lemma_total_update(pre.deals@, i, v);
        lemma_key_at(pre.deals@, i);
        assert forall|id: u64| id != v.deal_id implies #[trigger] post.spec_deal(id)
            == pre.spec_deal(id) by {
            if has_key(pre.deals@, id) {
                assert(table_at(post.deals@, id) == table_at(pre.deals@, id));
            }
        }
        assert forall|j: int| 0 <= j < post.deals@.len() implies post.deal_inv(
            #[trigger] post.deals@[j],
        ) by {
            assert(pre.deal_inv(pre.deals@[j]));
            if j != i {
                assert(post.deals@[j] == pre.deals@[j]);
            }
        }
        assert forall|j: int| 0 <= j < post.disputes@.len() implies post.dispute_inv(
            #[trigger] post.disputes@[j],
        ) by {
            let e = pre.disputes@[j];
            assert(pre.dispute_inv(e));
            if e.dispute.deal_id == v.deal_id {
                assert(table_at(pre.deals@, e.dispute.deal_id) == pre.deals@[i]);
                assert(table_at(post.deals@, e.dispute.deal_id) == v);
            } else {
                assert(table_at(post.deals@, e.dispute.deal_id) == table_at(
                    pre.deals@,
                    e.dispute.deal_id,
                ));
            }
        }
    }

    /// Appending a freshly numbered, not yet accepted deal leaves every other
    /// deal, and every other ledger, untouched.
    proof fn lemma_deal_push(pre: Self, post: Self, v: Deal)
        requires
            pre.users_ok(),
            pre.deals_ok(),
            pre.disputes_ok(),
            pre.next_deal_id >= 1,
            v.deal_id == pre.next_deal_id,
            v.amount > 0,
            v.payer != 0,
            v.beneficiary != 0,
            pre.is_registered(v.payer),
            pre.is_registered(v.beneficiary),
            !v.accepted,
            !v.disputed,
            v.started_at == 0,
            post.users@ == pre.users@,
            post.deals@ == pre.deals@.push(v),
            post.disputes@ == pre.disputes@,
            post.next_deal_id == pre.next_deal_id + 1,
        ensures
            post.users_ok(),
            post.deals_ok(),
            post.disputes_ok(),
            pre.spec_deal(v.deal_id) == Deal::absent(),
            post.spec_deal(v.deal_id) == v,
            forall|id: u64| id != v.deal_id ==> #[trigger] post.spec_deal(id) == pre.spec_deal(id),
            table_total(post.deals@) == table_total(pre.deals@),
    {
        if has_key(pre.deals@, v.deal_id) {
            lemma_at_key(pre.deals@, v.deal_id);
            let i = key_index(pre.deals@, v.deal_id);
            assert(pre.deal_inv(pre.deals@[i]));
        }
        lemma_push(pre.deals@, v);
        lemma_total_push(pre.deals@, v);
        assert forall|id: u64| id != v.deal_id implies #[trigger] post.spec_deal(id)
            == pre.spec_deal(id) by {
            if has_key(pre.deals@, id) {
                assert(table_at(post.deals@, id) == table_at(pre.deals@, id));
            }
        }
        assert forall|j: int| 0 <= j < post.deals@.len() implies post.deal_inv(
            #[trigger] post.deals@[j],
        ) by {
            if j < pre.deals@.len() {
                assert(post.deals@[j] == pre.deals@[j]);
                assert(pre.deal_inv(pre.deals@[j]));
            } else {
                assert(post.deals@[j] == v);
            }
        }
        assert forall|j: int| 0 <= j < post.disputes@.len() implies post.dispute_inv(
            #[trigger] post.disputes@[j],
        ) by {
            let e = pre.disputes@[j];
            assert(pre.dispute_inv(e));
            assert(e.dispute.deal_id != v.deal_id);
            assert(table_at(post.deals@, e.dispute.deal_id) == table_at(
                pre.deals@,
                e.dispute.deal_id,
            ));
        }
    }

    /// Removing an undisputed deal leaves every other deal, and every other
    /// ledger, untouched; no dispute can reference the removed deal.
    proof fn lemma_deal_remove(pre: Self, post: Self, i: int)
        requires
            pre.users_ok(),
            pre.deals_ok(),
            pre.disputes_ok(),
            0 <= i < pre.deals@.len(),
            !pre.deals@[i].disputed,
            post.users@ == pre.users@,
            post.deals@ == pre.deals@.remove(i),
            post.disputes@ == pre.disputes@,
            post.next_deal_id == pre.next_deal_id,
        ensures
            post.users_ok(),
            post.deals_ok(),
            post.disputes_ok(),
            pre.spec_deal(pre.deals@[i].deal_id) == pre.deals@[i],
            post.spec_deal(pre.deals@[i].deal_id) == Deal::absent(),
            forall|id: u64|
                id != pre.deals@[i].deal_id ==> #[trigger] post.spec_deal(id) == pre.spec_deal(id),
            table_total(post.deals@) == table_total(pre.deals@) - pre.deals@[i].weight(),
    {
        let key = pre.deals@[i].deal_id;
        lemma_remove(pre.deals@, i);
        lemma_total_remove(pre.deals@, i);
        lemma_key_at(pre.deals@, i);
        assert forall|id: u64| id != key implies #[trigger] post.spec_deal(id) == pre.spec_deal(
            id,
        ) by {
            if has_key(pre.deals@, id) {
                assert(table_at(post.deals@, id) == table_at(pre.deals@, id));
            }
        }
        assert forall|j: int| 0 <= j < post.deals@.len() implies post.deal_inv(
            #[trigger] post.deals@[j],
        ) by {
            let j0 = if j < i {
                j
            } else {
                j + 1
            };
            assert(post.deals@[j] == pre.deals@[j0]);
            assert(pre.deal_inv(pre.deals@[j0]));
        }
        assert forall|j: int| 0 <= j < post.disputes@.len() implies post.dispute_inv(
            #[trigger] post.disputes@[j],
        ) by {
            let e = pre.disputes@[j];
            assert(pre.dispute_inv(e));
            if e.dispute.deal_id == key {
                assert(table_at(pre.deals@, key) == pre.deals@[i]);
            }
            assert(e.dispute.deal_id != key);
            assert(table_at(post.deals@, e.dispute.deal_id) == table_at(
                pre.deals@,
                e.dispute.deal_id,
            ));
        }
    }

    /// How `create_deal` relates the states it joins: a beneficiary names a
    /// registered payer and a positive amount, and a `Proposed` deal is
    /// recorded under the next identifier, which is then advanced.
    pub open spec fn create_transition(
        pre: Self,
        post: Self,
        caller: Address,
        payer: Address,
        amount: u64,
        duration: u64,
        r: Result<(), MarketplaceError>,
    ) -> bool {
        if amount == 0 {
            &&& r == Err::<(), MarketplaceError>(MarketplaceError::InvalidInput)
            &&& post == pre
        } else if payer == 0 {
            &&& r == Err::<(), MarketplaceError>(MarketplaceError::InvalidInput)
            &&& post == pre
        } else if !pre.spec_user(caller).is_beneficiary {
            &&& r == Err::<(), MarketplaceError>(MarketplaceError::InvalidState)
            &&& post == pre
        } else if !pre.spec_user(payer).is_payer {
            &&& r == Err::<(), MarketplaceError>(MarketplaceError::InvalidState)
            &&& post == pre
        } else {
            &&& r == Ok::<(), MarketplaceError>(())
            &&& post.next_deal_id == pre.next_deal_id + 1
            &&& post.spec_deal(pre.next_deal_id) == (Deal {
                deal_id: pre.next_deal_id,
                payer,
                beneficiary: caller,
                amount,
                started_at: 0,
                duration,
                accepted: false,
                disputed: false,
            })
            &&& forall|id: u64|
                id != pre.next_deal_id ==> #[trigger] post.spec_deal(id) == pre.spec_deal(id)
            &&& post.users@ == pre.users@
            &&& post.disputes@ == pre.disputes@
            &&& post.fee_percent == pre.fee_percent
            &&& post.total_deposited == pre.total_deposited
            &&& Self::config_unchanged(pre, post)
        }
    }

    /// Create a new `Proposed` deal, the caller acting as beneficiary and
    /// naming the payer.  The identifier counter is strictly increasing, so
    /// identifiers are never reused even after deletion.
    pub fn create_deal(&mut self, caller: Address, payer: Address, amount: u64, duration: u64) -> (r:
        Result<(), MarketplaceError>)
        requires
            old(self).wf(),
            old(self).next_deal_id < u64::MAX,
        ensures
            final(self).wf(),
            Self::create_transition(*old(self), *final(self), caller, payer, amount, duration, r),
    {
        if amount == 0 {
            return Err(MarketplaceError::InvalidInput);
        }
        if payer == 0 {
            return Err(MarketplaceError::InvalidInput);
        }
        let sender_user = self.get_user(caller);
        if !sender_user.is_beneficiary {
            return Err(MarketplaceError::InvalidState);
        }
        let payer_user = self.get_user(payer);
        if !payer_user.is_payer {
            return Err(MarketplaceError::InvalidState);
        }
        let id = self.next_deal_id;
        let d = Deal {
            deal_id: id,
            payer,
            beneficiary: caller,
            amount,
            started_at: 0,
            duration,
            accepted: false,
            disputed: false,
        };
        self.deals.push(d);
        self.next_deal_id = id + 1;
        proof {
            Self::lemma_present_user(*old(self), caller);
            Self::lemma_present_user(*old(self), payer);
            Self::lemma_deal_push(*old(self), *self, d);
        }
        Ok(())
    }

    /// How `update_deal_amount` relates the states it joins: only the payer
    /// may edit, only before acceptance, and only to a positive amount.
    pub open spec fn update_amount_transition(
        pre: Self,
        post: Self,
        caller: Address,
        deal_id: u64,
        new_amount: u64,
        r: Result<(), MarketplaceError>,
    ) -> bool {
        let d = pre.spec_deal(deal_id);
        if d.amount == 0 {
            &&& r == Err::<(), MarketplaceError>(MarketplaceError::NotFound)
            &&& post == pre
        } else if caller != d.payer {
            &&& r == Err::<(), MarketplaceError>(MarketplaceError::Unauthorized)
            &&& post == pre
        } else if d.accepted {
            &&& r == Err::<(), MarketplaceError>(MarketplaceError::AlreadyExists)
            &&& post == pre
        } else if new_amount == 0 {
            &&& r == Err::<(), MarketplaceError>(MarketplaceError::InvalidInput)
            &&& post == pre
        } else {
            &&& r == Ok::<(), MarketplaceError>(())
            &&& post.spec_deal(deal_id) == (Deal { amount: new_amount, ..d })
            &&& forall|id: u64| id != deal_id ==> #[trigger] post.spec_deal(id) == pre.spec_deal(id)
            &&& post.users@ == pre.users@
            &&& post.disputes@ == pre.disputes@
            &&& post.next_deal_id == pre.next_deal_id
            &&& post.fee_percent == pre.fee_percent
            &&& post.total_deposited == pre.total_deposited
            &&& Self::config_unchanged(pre, post)
        }
    }

    /// Edit a proposed deal's amount.  Fails with `AlreadyExists` once the
    /// deal has been accepted.
    pub fn update_deal_amount(&mut self, caller: Address, deal_id: u64, new_amount: u64) -> (r:
        Result<(), MarketplaceError>)
        requires
            old(self).wf(),
        ensures
            final(self).wf(),
            Self::update_amount_transition(*old(self), *final(self), caller, deal_id, new_amount, r),
    {
        let i = match table_find(&self.deals, deal_id) {
            Some(i) => i,
            None => {
                return Err(MarketplaceError::NotFound);
            },
        };
        proof {
            lemma_key_at(self.deals@, i as int);
        }
        let prior = self.deals[i];
        if caller != prior.payer {
            return Err(MarketplaceError::Unauthorized);
        }
        if prior.accepted {
            return Err(MarketplaceError::AlreadyExists);
        }
        if new_amount == 0 {
            return Err(MarketplaceError::InvalidInput);
        }
        let v = Deal { amount: new_amount, ..prior };
        self.deals[i] = v;
        proof {
            Self::lemma_deal_update(*old(self), *self, i as int, v);
        }
        Ok(())
    }

    /// How `update_deal_duration` relates the states it joins: only the payer
    /// may edit, only before acceptance, and only to a nonzero duration.
    pub open spec fn update_duration_transition(
        pre: Self,
        post: Self,
        caller: Address,
        deal_id: u64,
        new_duration: u16,
        r: Result<(), MarketplaceError>,
    ) -> bool {
        let d = pre.spec_deal(deal_id);
        if d.amount == 0 {
            &&& r == Err::<(), MarketplaceError>(MarketplaceError::NotFound)
            &&& post == pre
        } else if caller != d.payer {
            &&& r == Err::<(), MarketplaceError>(MarketplaceError::Unauthorized)
            &&& post == pre
        } else if d.accepted {
            &&& r == Err::<(), MarketplaceError>(MarketplaceError::AlreadyExists)
            &&& post == pre
        } else if new_duration == 0 {
            &&& r == Err::<(), MarketplaceError>(MarketplaceError::InvalidInput)
            &&& post == pre
        } else {
            &&& r == Ok::<(), MarketplaceError>(())
            &&& post.spec_deal(deal_id) == (Deal { duration: new_duration as u64, ..d })
            &&& forall|id: u64| id != deal_id ==> #[trigger] post.spec_deal(id) == pre.spec_deal(id)
            &&& post.users@ == pre.users@
            &&& post.disputes@ == pre.disputes@
            &&& post.next_deal_id == pre.next_deal_id
            &&& post.fee_percent == pre.fee_percent
            &&& post.total_deposited == pre.total_deposited
            &&& Self::config_unchanged(pre, post)
        }
    }

    /// Edit a proposed deal's duration (in days).  Fails with `AlreadyExists`
    /// once the deal has been accepted.
    pub fn update_deal_duration(&mut self, caller: Address, deal_id: u64, new_duration: u16) -> (r:
        Result<(), MarketplaceError>)
        requires
            old(self).wf(),
        ensures
            final(self).wf(),
            Self::update_duration_transition(
                *old(self),
                *final(self),
                caller,
                deal_id,
                new_duration,
                r,
            ),
    {
        let i = match table_find(&self.deals, deal_id) {
            Some(i) => i,
            None => {
                return Err(MarketplaceError::NotFound);
            },
        };
        proof {
            lemma_key_at(self.deals@, i as int);
        }
        let prior = self.deals[i];
        if caller != prior.payer {
            return Err(MarketplaceError::Unauthorized);
        }
        if prior.accepted {
            return Err(MarketplaceError::AlreadyExists);
        }
        if new_duration == 0 {
            return Err(MarketplaceError::InvalidInput);
        }
        let v = Deal { duration: new_duration as u64, ..prior };
        self.deals[i] = v;
        proof {
            Self::lemma_deal_update(*old(self), *self, i as int, v);
        }
        Ok(())
    }

    /// How `reject_deal` relates the states it joins: the payer deletes a
    /// deal that was never accepted; its record reverts to the sentinel and
    /// its identifier is never reissued.
    pub open spec fn reject_transition(
        pre: Self,
        post: Self,
        caller: Address,
        deal_id: u64,
        r: Result<(), MarketplaceError>,
    ) -> bool {
        let d = pre.spec_deal(deal_id);
        if d.amount == 0 {
            &&& r == Err::<(), MarketplaceError>(MarketplaceError::NotFound)
            &&& post == pre
        } else if caller != d.payer {
            &&& r == Err::<(), MarketplaceError>(MarketplaceError::Unauthorized)
            &&& post == pre
        } else if d.accepted {
            &&& r == Err::<(), MarketplaceError>(MarketplaceError::AlreadyExists)
            &&& post == pre
        } else {
            &&& r == Ok::<(), MarketplaceError>(())
            &&& post.spec_deal(deal_id) == Deal::absent()
            &&& forall|id: u64| id != deal_id ==> #[trigger] post.spec_deal(id) == pre.spec_deal(id)
            &&& post.users@ == pre.users@
            &&& post.disputes@ == pre.disputes@
            &&& post.next_deal_id == pre.next_deal_id
            &&& post.fee_percent == pre.fee_percent
            &&& post.total_deposited == pre.total_deposited
            &&& Self::config_unchanged(pre, post)
        }
    }

    /// Reject a proposed deal: the payer declines and the record is deleted.
    pub fn reject_deal(&mut self, caller: Address, deal_id: u64) -> (r: Result<
        (),
        MarketplaceError,
    >)
        requires
            old(self).wf(),
        ensures
            final(self).wf(),
            Self::reject_transition(*old(self), *final(self), caller, deal_id, r),
    {
        let i = match table_find(&self.deals, deal_id) {
            Some(i) => i,
            None => {
                return Err(MarketplaceError::NotFound);
            },
        };
        proof {
            lemma_key_at(self.deals@, i as int);
        }
        let prior = self.deals[i];
        if caller != prior.payer {
            return Err(MarketplaceError::Unauthorized);
        }
        if prior.accepted {
            return Err(MarketplaceError::AlreadyExists);
        }
        self.deals.remove(i);
        proof {
            Self::lemma_deal_remove(*old(self), *self, i as int);
        }
        Ok(())
    }

    /// Index of a user known to be present.
    fn find_user_index(&self, a: Address) -> (i: usize)
        requires
            unique_keys(self.users@),
            has_key(self.users@, a),
        ensures
            i < self.users@.len(),
            self.users@[i as int] == table_at(self.users@, a),
            self.users@[i as int].address == a,
    {
        match table_find(&self.users, a) {
            Some(i) => {
                proof {
                    lemma_key_at(self.users@, i as int);
                    lemma_at_key(self.users@, a);
                }
                i
            },
            None => {
                // Never reached: the key is present by precondition.
                proof {
                    assert(false);
                }
                0
            },
        }
    }

    /// Every table weight in the engine is nonnegative: balances and escrow
    /// amounts are unsigned.
    proof fn lemma_weights_nonneg(m: Self)
        ensures
            weights_nonneg(m.users@),
            weights_nonneg(m.deals@),
    {
        assert forall|i: int| 0 <= i < m.users@.len() implies (#[trigger] m.users@[i]).weight()
            >= 0 by {}
        assert forall|i: int| 0 <= i < m.deals@.len() implies (#[trigger] m.deals@[i]).weight()
            >= 0 by {}
    }

    /// How `accept_deal` relates the states it joins: the payer accepts a
    /// proposed deal, the acceptance time is recorded, and the operation
    /// hands out the escrow pull for the environment to perform after the
    /// state is committed.
    pub open spec fn accept_transition(
        pre: Self,
        post: Self,
        caller: Address,
        deal_id: u64,
        now: u64,
        r: Result<TokenCall, MarketplaceError>,
    ) -> bool {
        let d = pre.spec_deal(deal_id);
        if d.amount == 0 {
            &&& r == Err::<TokenCall, MarketplaceError>(MarketplaceError::NotFound)
            &&& post == pre
        } else if caller != d.payer {
            &&& r == Err::<TokenCall, MarketplaceError>(MarketplaceError::Unauthorized)
            &&& post == pre
        } else if d.accepted {
            &&& r == Err::<TokenCall, MarketplaceError>(MarketplaceError::AlreadyExists)
            &&& post == pre
        } else {
            &&& r == Ok::<TokenCall, MarketplaceError>(
                TokenCall::PullToEscrow { holder: caller, amount: d.amount as u128 },
            )
            &&& post.spec_deal(deal_id) == (Deal { accepted: true, started_at: now, ..d })
            &&& forall|id: u64| id != deal_id ==> #[trigger] post.spec_deal(id) == pre.spec_deal(id)
            &&& post.users@ == pre.users@
            &&& post.disputes@ == pre.disputes@
            &&& post.next_deal_id == pre.next_deal_id
            &&& post.fee_percent == pre.fee_percent
            &&& post.total_deposited == pre.total_deposited + d.amount
            &&& Self::config_unchanged(pre, post)
        }
    }

    /// Accept a proposed deal: the state moves to `Active` and the start time
    /// is recorded *before* the environment pulls the escrow, so a failed
    /// pull aborts the whole operation.
    pub fn accept_deal(&mut self, caller: Address, deal_id: u64, now: u64) -> (r: Result<
        TokenCall,
        MarketplaceError,
    >)
        requires
            old(self).wf(),
            old(self).total_deposited + old(self).spec_deal(deal_id).amount <= u128::MAX,
        ensures
            final(self).wf(),
            Self::accept_transition(*old(self), *final(self), caller, deal_id, now, r),
    {
        let i = match table_find(&self.deals, deal_id) {
            Some(i) => i,
            None => {
                return Err(MarketplaceError::NotFound);
            },
        };
        proof {
            lemma_key_at(self.deals@, i as int);
        }
        let prior = self.deals[i];
        if caller != prior.payer {
            return Err(MarketplaceError::Unauthorized);
        }
        if prior.accepted {
            return Err(MarketplaceError::AlreadyExists);
        }
        let v = Deal { accepted: true, started_at: now, ..prior };
        self.deals[i] = v;
        self.total_deposited = self.total_deposited + (prior.amount as u128);
        proof {
            Self::lemma_deal_update(*old(self), *self, i as int, v);
        }
        Ok(TokenCall::PullToEscrow { holder: caller, amount: prior.amount as u128 })
    }

    /// The common settlement effect: delete the deal at index `i` and credit
    /// `payout_of` its amount to the user at index `j`.
    pub open spec fn settlement_effect(pre: Self, post: Self, deal_id: u64, recipient: Address)
        -> bool {
        &&& post.spec_deal(deal_id) == Deal::absent()
        &&& forall|id: u64| id != deal_id ==> #[trigger] post.spec_deal(id) == pre.spec_deal(id)
        &&& post.spec_user(recipient) == (User {
            balance: (pre.spec_user(recipient).balance + payout_of(
                pre.spec_deal(deal_id).amount,
                pre.fee_percent,
            )) as u128,
            ..pre.spec_user(recipient)
        })
        &&& forall|b: Address| b != recipient ==> #[trigger] post.spec_user(b) == pre.spec_user(b)
        &&& post.disputes@ == pre.disputes@
        &&& post.next_deal_id == pre.next_deal_id
        &&& post.fee_percent == pre.fee_percent
        &&& post.total_deposited == pre.total_deposited
        &&& Self::config_unchanged(pre, post)
    }

    /// Credit `payout_of(amount)` to the registered user `recipient`, then
    /// delete the accepted, undisputed deal at index `i`.  Shared by
    /// `finish_deal` and `request_deal_payment`.
    fn settle_to(&mut self, i: usize, recipient: Address) -> (fee: u64)
        requires
            old(self).wf(),
            i < old(self).deals@.len(),
            old(self).deals@[i as int].accepted,
            !old(self).deals@[i as int].disputed,
            old(self).is_registered(recipient),
        ensures
            final(self).wf(),
            fee == fee_of(old(self).deals@[i as int].amount, old(self).fee_percent),
            Self::settlement_effect(
                *old(self),
                *final(self),
                old(self).deals@[i as int].deal_id,
                recipient,
            ),
            final(self).disputes@ == old(self).disputes@,
    {
        proof {
            lemma_key_at(self.deals@, i as int);
        }
        let prior = self.deals[i];
        let fee = settlement_fee(prior.amount, self.fee_percent);
        let payout = prior.amount - fee;
        let j = self.find_user_index(recipient);
        let prior_u = self.users[j];
        proof {
            Self::lemma_weights_nonneg(*self);
            lemma_weight_le_total(self.users@, j as int);
            lemma_weight_le_total(self.deals@, i as int);
            lemma_fee_payout_conservation(prior.amount, self.fee_percent);
        }
        let v = User { balance: prior_u.balance + (payout as u128), ..prior_u };
        self.users[j] = v;
        let ghost mid = *self;
        self.deals.remove(i);
        proof {
            Self::lemma_user_update(*old(self), mid, j as int, v);
            Self::lemma_deal_remove(mid, *self, i as int);
        }
        fee
    }

    /// How `finish_deal` relates the states it joins: the payer settles an
    /// `Active`, undisputed deal; the beneficiary is credited the amount
    /// minus the fee and the deal record reverts to the sentinel.
    pub open spec fn finish_transition(
        pre: Self,
        post: Self,
        caller: Address,
        deal_id: u64,
        r: Result<(), MarketplaceError>,
    ) -> bool {
        let d = pre.spec_deal(deal_id);
        if d.amount == 0 {
            &&& r == Err::<(), MarketplaceError>(MarketplaceError::NotFound)
            &&& post == pre
        } else if caller != d.payer {
            &&& r == Err::<(), MarketplaceError>(MarketplaceError::Unauthorized)
            &&& post == pre
        } else if !d.accepted {
            &&& r == Err::<(), MarketplaceError>(MarketplaceError::InvalidState)
            &&& post == pre
        } else if d.disputed {
            &&& r == Err::<(), MarketplaceError>(MarketplaceError::InvalidState)
            &&& post == pre
        } else {
            &&& r == Ok::<(), MarketplaceError>(())
            &&& Self::settlement_effect(pre, post, deal_id, d.beneficiary)
        }
    }

    /// Finish an `Active` deal: the payer releases the escrow and the
    /// beneficiary's withdrawable balance grows by the amount minus the fee.
    pub fn finish_deal(&mut self, caller: Address, deal_id: u64) -> (r: Result<
        (),
        MarketplaceError,
    >)
        requires
            old(self).wf(),
        ensures
            final(self).wf(),
            Self::finish_transition(*old(self), *final(self), caller, deal_id, r),
    {
        let i = match table_find(&self.deals, deal_id) {
            Some(i) => i,
            None => {
                return Err(MarketplaceError::NotFound);
            },
        };
        proof {
            lemma_key_at(self.deals@, i as int);
        }
        let prior = self.deals[i];
        if caller != prior.payer {
            return Err(MarketplaceError::Unauthorized);
        }
        if !prior.accepted {
            return Err(MarketplaceError::InvalidState);
        }
        if prior.disputed {
            return Err(MarketplaceError::InvalidState);
        }
        self.settle_to(i, prior.beneficiary);
        Ok(())
    }

    /// How `request_deal_payment` relates the states it joins: once the
    /// duration plus the grace period has elapsed, the beneficiary may force
    /// the same settlement as `finish_deal` without payer action.
    pub open spec fn payment_transition(
        pre: Self,
        post: Self,
        caller: Address,
        deal_id: u64,
        now: u64,
        r: Result<(), MarketplaceError>,
    ) -> bool {
        let d = pre.spec_deal(deal_id);
        if d.amount == 0 {
            &&& r == Err::<(), MarketplaceError>(MarketplaceError::NotFound)
            &&& post == pre
        } else if caller != d.beneficiary {
            &&& r == Err::<(), MarketplaceError>(MarketplaceError::Unauthorized)
            &&& post == pre
        } else if !d.accepted {
            &&& r == Err::<(), MarketplaceError>(MarketplaceError::InvalidState)
            &&& post == pre
        } else if d.disputed {
            &&& r == Err::<(), MarketplaceError>(MarketplaceError::InvalidState)
            &&& post == pre
        } else if !payment_due(d, now) {
            &&& r == Err::<(), MarketplaceError>(MarketplaceError::InvalidState)
            &&& post == pre
        } else {
            &&& r == Ok::<(), MarketplaceError>(())
            &&& Self::settlement_effect(pre, post, deal_id, d.beneficiary)
        }
    }

    /// Timeout payout: after the deal's duration (in days) plus the grace
    /// period has elapsed, the beneficiary collects the same payout as
    /// `finish_deal` would grant, without payer consent.
    pub fn request_deal_payment(&mut self, caller: Address, deal_id: u64, now: u64) -> (r: Result<
        (),
        MarketplaceError,
    >)
        requires
            old(self).wf(),
        ensures
            final(self).wf(),
            Self::payment_transition(*old(self), *final(self), caller, deal_id, now, r),
    {
        let i = match table_find(&self.deals, deal_id) {
            Some(i) => i,
            None => {
                return Err(MarketplaceError::NotFound);
            },
        };
        proof {
            lemma_key_at(self.deals@, i as int);
        }
        let prior = self.deals[i];
        if caller != prior.beneficiary {
            return Err(MarketplaceError::Unauthorized);
        }
        if !prior.accepted {
            return Err(MarketplaceError::InvalidState);
        }
        if prior.disputed {
            return Err(MarketplaceError::InvalidState);
        }
        proof {
            assert((prior.duration as int) * (ONE_DAY as int) <= (u64::MAX as int) * (
            ONE_DAY as int)) by (nonlinear_arith)
                requires
                    prior.duration <= u64::MAX,
            ;
        }
        let required: u128 = (prior.started_at as u128) + (prior.duration as u128) * (
        ONE_DAY as u128) + (GRACE_PERIOD as u128);
        if (now as u128) < required {
            return Err(MarketplaceError::InvalidState);
        }
        self.settle_to(i, prior.beneficiary);
        Ok(())
    }

    /// Index of a deal known to be present.
    fn find_deal_index(&self, id: u64) -> (i: usize)
        requires
            unique_keys(self.deals@),
            has_key(self.deals@, id),
        ensures
            i < self.deals@.len(),
            self.deals@[i as int] == table_at(self.deals@, id),
            self.deals@[i as int].deal_id == id,
    {
        match table_find(&self.deals, id) {
            Some(i) => {
                proof {
                    lemma_key_at(self.deals@, i as int);
                    lemma_at_key(self.deals@, id);
                }
                i
            },
            None => {
                // Never reached: the key is present by precondition.
                proof {
                    assert(false);
                }
                0
            },
        }
    }

    /// Linear scan for a dispute record referencing the deal `deal_id`.
    fn find_dispute_for_deal(&self, deal_id: u64) -> (r: Option<usize>)
        ensures
            match r {
                Some(i) => i < self.disputes@.len() && self.disputes@[i as int].dispute.deal_id
                    == deal_id,
                None => !self.has_dispute_for_deal(deal_id),
            },
    {
        let mut n: usize = 0;
        while n < self.disputes.len()
            invariant
                n <= self.disputes@.len(),
                forall|j: int| 0 <= j < n ==> (#[trigger] self.disputes@[j]).dispute.deal_id
                    != deal_id,
            decreases self.disputes@.len() - n,
        {
            if self.disputes[n].dispute.deal_id == deal_id {
                return Some(n);
            }
            n += 1;
        }
        None
    }

    /// Appending a dispute record with a fresh identifier, for a disputed
    /// deal with no dispute yet, leaves every other dispute, and every other
    /// ledger, untouched.
    proof fn lemma_dispute_push(pre: Self, post: Self, e: DisputeEntry)
        requires
            pre.users_ok(),
            pre.deals_ok(),
            pre.disputes_ok(),
            !has_key(pre.disputes@, e.dispute_id),
            !pre.has_dispute_for_deal(e.dispute.deal_id),
            e.dispute.deal_id != 0,
            e.dispute.is_open,
            e.dispute.waiting_for_judges,
            has_key(pre.deals@, e.dispute.deal_id),
            table_at(pre.deals@, e.dispute.deal_id).disputed,
            table_at(pre.deals@, e.dispute.deal_id).payer == e.dispute.requester,
            post.users@ == pre.users@,
            post.deals@ == pre.deals@,
            post.disputes@ == pre.disputes@.push(e),
            post.next_deal_id == pre.next_deal_id,
        ensures
            post.users_ok(),
            post.deals_ok(),
            post.disputes_ok(),
            post.spec_dispute(e.dispute_id) == e.dispute,
            forall|id: u64|
                id != e.dispute_id ==> #[trigger] post.spec_dispute(id) == pre.spec_dispute(id),
    {
        lemma_push(pre.disputes@, e);
        assert forall|id: u64| id != e.dispute_id implies #[trigger] post.spec_dispute(id)
            == pre.spec_dispute(id) by {
            if has_key(pre.disputes@, id) {
                assert(table_at(post.disputes@, id) == table_at(pre.disputes@, id));
            }
        }
        assert forall|a: int, b: int|
            #![trigger post.disputes@[a], post.disputes@[b]]
            0 <= a < b < post.disputes@.len() implies post.disputes@[a].dispute.deal_id
            != post.disputes@[b].dispute.deal_id by {
            if b < pre.disputes@.len() {
                assert(pre.disputes@[a].dispute.deal_id != pre.disputes@[b].dispute.deal_id);
            } else {
                assert(post.disputes@[b] == e);
                assert(post.disputes@[a] == pre.disputes@[a]);
                if pre.disputes@[a].dispute.deal_id == e.dispute.deal_id {
                    assert(pre.has_dispute_for_deal(e.dispute.deal_id));
                }
            }
        }
        assert forall|j: int| 0 <= j < post.disputes@.len() implies post.dispute_inv(
            #[trigger] post.disputes@[j],
        ) by {
            if j < pre.disputes@.len() {
                assert(post.disputes@[j] == pre.disputes@[j]);
                assert(pre.dispute_inv(pre.disputes@[j]));
            } else {
                assert(post.disputes@[j] == e);
            }
        }
        assert forall|j: int| 0 <= j < post.deals@.len() implies post.deal_inv(
            #[trigger] post.deals@[j],
        ) by {
            assert(pre.deal_inv(pre.deals@[j]));
        }
    }

    /// Removing a settled deal together with its dispute record leaves every
    /// other deal and dispute, and the user ledger, untouched.
    proof fn lemma_settle_remove(pre: Self, post: Self, i: int, j: int)
        requires
            pre.users_ok(),
            pre.deals_ok(),
            pre.disputes_ok(),
            0 <= i < pre.deals@.len(),
            0 <= j < pre.disputes@.len(),
            pre.disputes@[j].dispute.deal_id == pre.deals@[i].deal_id,
            post.users@ == pre.users@,
            post.deals@ == pre.deals@.remove(i),
            post.disputes@ == pre.disputes@.remove(j),
            post.next_deal_id == pre.next_deal_id,
        ensures
            post.users_ok(),
            post.deals_ok(),
            post.disputes_ok(),
            pre.spec_deal(pre.deals@[i].deal_id) == pre.deals@[i],
            post.spec_deal(pre.deals@[i].deal_id) == Deal::absent(),
            forall|id: u64|
                id != pre.deals@[i].deal_id ==> #[trigger] post.spec_deal(id) == pre.spec_deal(id),
            post.spec_dispute(pre.disputes@[j].dispute_id) == Dispute::absent(),
            forall|id: u64|
                id != pre.disputes@[j].dispute_id ==> #[trigger] post.spec_dispute(id)
                    == pre.spec_dispute(id),
            table_total(post.deals@) == table_total(pre.deals@) - pre.deals@[i].weight(),
    {
        let key = pre.deals@[i].deal_id;
        lemma_remove(pre.deals@, i);
        lemma_remove(pre.disputes@, j);
        lemma_total_remove(pre.deals@, i);
        lemma_key_at(pre.deals@, i);
        assert forall|id: u64| id != key implies #[trigger] post.spec_deal(id) == pre.spec_deal(
            id,
        ) by {
            if has_key(pre.deals@, id) {
                assert(table_at(post.deals@, id) == table_at(pre.deals@, id));
            }
        }
        assert forall|id: u64| id != pre.disputes@[j].dispute_id implies #[trigger] post.spec_dispute(
            id,
        ) == pre.spec_dispute(id) by {
            if has_key(pre.disputes@, id) {
                assert(table_at(post.disputes@, id) == table_at(pre.disputes@, id));
            }
        }
        assert forall|t: int| 0 <= t < post.deals@.len() implies post.deal_inv(
            #[trigger] post.deals@[t],
        ) by {
            let t0 = if t < i {
                t
            } else {
                t + 1
            };
            assert(post.deals@[t] == pre.deals@[t0]);
            assert(pre.deal_inv(pre.deals@[t0]));
        }
        assert forall|a: int, b: int|
            #![trigger post.disputes@[a], post.disputes@[b]]
            0 <= a < b < post.disputes@.len() implies post.disputes@[a].dispute.deal_id
            != post.disputes@[b].dispute.deal_id by {
            let a0 = if a < j {
                a
            } else {
                a + 1
            };
            let b0 = if b < j {
                b
            } else {
                b + 1
            };
            assert(post.disputes@[a] == pre.disputes@[a0]);
            assert(post.disputes@[b] == pre.disputes@[b0]);
            assert(pre.disputes@[a0].dispute.deal_id != pre.disputes@[b0].dispute.deal_id);
        }
        assert forall|t: int| 0 <= t < post.disputes@.len() implies post.dispute_inv(
            #[trigger] post.disputes@[t],
        ) by {
            let t0 = if t < j {
                t
            } else {
                t + 1
            };
            assert(post.disputes@[t] == pre.disputes@[t0]);
            assert(pre.dispute_inv(pre.disputes@[t0]));
            assert(pre.disputes@[t0].dispute.deal_id != pre.disputes@[j].dispute.deal_id);
            assert(table_at(post.deals@, post.disputes@[t].dispute.deal_id) == table_at(
                pre.deals@,
                pre.disputes@[t0].dispute.deal_id,
            ));
        }
    }

    /// How `request_dispute` relates the states it joins: the payer of an
    /// `Active`, not yet disputed deal raises a dispute; the deal's disputed
    /// flag is set, and the operation hands out the fixed fee transfer and
    /// the arbitration handoff.  A second request on the same deal fails with
    /// `AlreadyExists`.
    pub open spec fn request_dispute_transition(
        pre: Self,
        post: Self,
        caller: Address,
        deal_id: u64,
        proof_data: Seq<u8>,
        r: Result<DisputeHandoff, MarketplaceError>,
    ) -> bool {
        let d = pre.spec_deal(deal_id);
        if d.amount == 0 {
            &&& r matches Err(e) && e == MarketplaceError::NotFound
            &&& post == pre
        } else if caller != d.payer {
            &&& r matches Err(e) && e == MarketplaceError::Unauthorized
            &&& post == pre
        } else if !d.accepted {
            &&& r matches Err(e) && e == MarketplaceError::InvalidState
            &&& post == pre
        } else if d.disputed {
            &&& r matches Err(e) && e == MarketplaceError::AlreadyExists
            &&& post == pre
        } else {
            &&& r matches Ok(h) && {
                &&& h.fee == TokenCall::PullToArbitration {
                    holder: caller,
                    amount: DISPUTE_FEE as u128,
                }
                &&& h.open matches ArbitrationCall::OpenDispute {
                    deal_id: did,
                    requester,
                    payload,
                } && did == deal_id && requester == caller && payload@ == proof_data
            }
            &&& post.spec_deal(deal_id) == (Deal { disputed: true, ..d })
            &&& forall|id: u64| id != deal_id ==> #[trigger] post.spec_deal(id) == pre.spec_deal(id)
            &&& post.users@ == pre.users@
            &&& post.disputes@ == pre.disputes@
            &&& post.next_deal_id == pre.next_deal_id
            &&& post.fee_percent == pre.fee_percent
            &&& post.total_deposited == pre.total_deposited
            &&& Self::config_unchanged(pre, post)
        }
    }

    /// Raise a dispute on an `Active` deal.  Only the payer may dispute, a
    /// deal can be disputed once, and the requester pays the fixed
    /// `DISPUTE_FEE` straight to the arbitration service.  The environment
    /// performs the handed-out calls and, once the service has issued a
    /// dispute identifier, records it with `record_dispute`.
    pub fn request_dispute(&mut self, caller: Address, deal_id: u64, proof_data: Vec<u8>) -> (r:
        Result<DisputeHandoff, MarketplaceError>)
        requires
            old(self).wf(),
        ensures
            final(self).wf(),
            Self::request_dispute_transition(
                *old(self),
                *final(self),
                caller,
                deal_id,
                proof_data@,
                r,
            ),
    {
        let i = match table_find(&self.deals, deal_id) {
            Some(i) => i,
            None => {
                return Err(MarketplaceError::NotFound);
            },
        };
        proof {
            lemma_key_at(self.deals@, i as int);
        }
        let prior = self.deals[i];
        if caller != prior.payer {
            return Err(MarketplaceError::Unauthorized);
        }
        if !prior.accepted {
            return Err(MarketplaceError::InvalidState);
        }
        if prior.disputed {
            return Err(MarketplaceError::AlreadyExists);
        }
        let v = Deal { disputed: true, ..prior };
        self.deals[i] = v;
        proof {
            Self::lemma_deal_update(*old(self), *self, i as int, v);
        }
        Ok(
            DisputeHandoff {
                fee: TokenCall::PullToArbitration { holder: caller, amount: DISPUTE_FEE as u128 },
                open: ArbitrationCall::OpenDispute { deal_id, requester: caller, payload: proof_data },
            },
        )
    }

    /// How `record_dispute` relates the states it joins: once the
    /// arbitration service has issued an identifier for a freshly disputed
    /// deal, a dispute record is stored under it; a taken identifier or an
    /// already recorded deal fails with `AlreadyExists`.
    pub open spec fn record_dispute_transition(
        pre: Self,
        post: Self,
        dispute_id: u64,
        deal_id: u64,
        r: Result<(), MarketplaceError>,
    ) -> bool {
        let d = pre.spec_deal(deal_id);
        if d.amount == 0 {
            &&& r == Err::<(), MarketplaceError>(MarketplaceError::NotFound)
            &&& post == pre
        } else if !d.disputed {
            &&& r == Err::<(), MarketplaceError>(MarketplaceError::InvalidState)
            &&& post == pre
        } else if pre.spec_dispute(dispute_id).deal_id != 0 {
            &&& r == Err::<(), MarketplaceError>(MarketplaceError::AlreadyExists)
            &&& post == pre
        } else if pre.has_dispute_for_deal(deal_id) {
            &&& r == Err::<(), MarketplaceError>(MarketplaceError::AlreadyExists)
            &&& post == pre
        } else {
            &&& r == Ok::<(), MarketplaceError>(())
            &&& post.spec_dispute(dispute_id) == (Dispute {
                deal_id,
                requester: d.payer,
                is_open: true,
                waiting_for_judges: true,
            })
            &&& forall|id: u64|
                id != dispute_id ==> #[trigger] post.spec_dispute(id) == pre.spec_dispute(id)
            &&& post.users@ == pre.users@
            &&& post.deals@ == pre.deals@
            &&& post.next_deal_id == pre.next_deal_id
            &&& post.fee_percent == pre.fee_percent
            &&& post.total_deposited == pre.total_deposited
            &&& Self::config_unchanged(pre, post)
        }
    }

    /// Record the dispute identifier the arbitration service issued for a
    /// disputed deal.  The hosting environment calls this in the same atomic
    /// unit of work as `request_dispute`, right after the service's
    /// open-dispute call returns the identifier.
    pub fn record_dispute(&mut self, dispute_id: u64, deal_id: u64) -> (r: Result<
        (),
        MarketplaceError,
    >)
        requires
            old(self).wf(),
        ensures
            final(self).wf(),
            Self::record_dispute_transition(*old(self), *final(self), dispute_id, deal_id, r),
    {
        let i = match table_find(&self.deals, deal_id) {
            Some(i) => i,
            None => {
                return Err(MarketplaceError::NotFound);
            },
        };
        proof {
            lemma_key_at(self.deals@, i as int);
        }
        let prior = self.deals[i];
        if !prior.disputed {
            return Err(MarketplaceError::InvalidState);
        }
        if let Some(j) = table_find(&self.disputes, dispute_id) {
            proof {
                lemma_key_at(self.disputes@, j as int);
            }
            return Err(MarketplaceError::AlreadyExists);
        }
        if self.find_dispute_for_deal(deal_id).is_some() {
            return Err(MarketplaceError::AlreadyExists);
        }
        let e = DisputeEntry {
            dispute_id,
            dispute: Dispute {
                deal_id,
                requester: prior.payer,
                is_open: true,
                waiting_for_judges: true,
            },
        };
        self.disputes.push(e);
        proof {
            Self::lemma_dispute_push(*old(self), *self, e);
        }
        Ok(())
    }

    /// How `add_dispute_evidence_for_payer` decides: only the original
    /// requester may submit payer-side evidence, the proof must be nonempty,
    /// and the granted call is a pure relay with no ledger change.
    pub open spec fn evidence_payer_transition(
        pre: Self,
        caller: Address,
        dispute_id: u64,
        proof_data: Seq<u8>,
        r: Result<ArbitrationCall, MarketplaceError>,
    ) -> bool {
        let dp = pre.spec_dispute(dispute_id);
        if dp.deal_id == 0 {
            r matches Err(e) && e == MarketplaceError::NotFound
        } else if caller != dp.requester {
            r matches Err(e) && e == MarketplaceError::Unauthorized
        } else if proof_data.len() == 0 {
            r matches Err(e) && e == MarketplaceError::InvalidInput
        } else {
            r matches Ok(c) && c matches ArbitrationCall::SubmitPayerEvidence {
                dispute_id: di,
                payer,
                payload,
            } && di == dispute_id && payer == caller && payload@ == proof_data
        }
    }

    /// Relay payer-side evidence for an open dispute to the arbitration
    /// service.  No ledger state changes; the environment performs the
    /// returned call.
    pub fn add_dispute_evidence_for_payer(
        &self,
        caller: Address,
        dispute_id: u64,
        proof_data: Vec<u8>,
    ) -> (r: Result<ArbitrationCall, MarketplaceError>)
        requires
            self.wf(),
        ensures
            Self::evidence_payer_transition(*self, caller, dispute_id, proof_data@, r),
    {
        let j = match table_find(&self.disputes, dispute_id) {
            Some(j) => j,
            None => {
                return Err(MarketplaceError::NotFound);
            },
        };
        proof {
            lemma_key_at(self.disputes@, j as int);
        }
        let entry = self.disputes[j];
        if caller != entry.dispute.requester {
            return Err(MarketplaceError::Unauthorized);
        }
        if proof_data.is_empty() {
            return Err(MarketplaceError::InvalidInput);
        }
        Ok(
            ArbitrationCall::SubmitPayerEvidence {
                dispute_id,
                payer: caller,
                payload: proof_data,
            },
        )
    }

    /// How `add_dispute_evidence_for_beneficiary` decides: only the disputed
    /// deal's beneficiary may submit beneficiary-side evidence, the proof
    /// must be nonempty, and the granted call is a pure relay.
    pub open spec fn evidence_beneficiary_transition(
        pre: Self,
        caller: Address,
        dispute_id: u64,
        proof_data: Seq<u8>,
        r: Result<ArbitrationCall, MarketplaceError>,
    ) -> bool {
        let dp = pre.spec_dispute(dispute_id);
        if dp.deal_id == 0 {
            r matches Err(e) && e == MarketplaceError::NotFound
        } else if caller != pre.spec_deal(dp.deal_id).beneficiary {
            r matches Err(e) && e == MarketplaceError::Unauthorized
        } else if proof_data.len() == 0 {
            r matches Err(e) && e == MarketplaceError::InvalidInput
        } else {
            r matches Ok(c) && c matches ArbitrationCall::SubmitBeneficiaryEvidence {
                dispute_id: di,
                beneficiary,
                payload,
            } && di == dispute_id && beneficiary == caller && payload@ == proof_data
        }
    }

    /// Relay beneficiary-side evidence for an open dispute to the
    /// arbitration service.  No ledger state changes.
    pub fn add_dispute_evidence_for_beneficiary(
        &self,
        caller: Address,
        dispute_id: u64,
        proof_data: Vec<u8>,
    ) -> (r: Result<ArbitrationCall, MarketplaceError>)
        requires
            self.wf(),
        ensures
            Self::evidence_beneficiary_transition(*self, caller, dispute_id, proof_data@, r),
    {
        let j = match table_find(&self.disputes, dispute_id) {
            Some(j) => j,
            None => {
                return Err(MarketplaceError::NotFound);
            },
        };
        proof {
            lemma_key_at(self.disputes@, j as int);
        }
        let entry = self.disputes[j];
        let i = self.find_deal_index(entry.dispute.deal_id);
        let deal = self.deals[i];
        if caller != deal.beneficiary {
            return Err(MarketplaceError::Unauthorized);
        }
        if proof_data.is_empty() {
            return Err(MarketplaceError::InvalidInput);
        }
        Ok(
            ArbitrationCall::SubmitBeneficiaryEvidence {
                dispute_id,
                beneficiary: caller,
                payload: proof_data,
            },
        )
    }

    /// How `apply_dispute_result` decides: an involved party (requester or
    /// beneficiary) asks for the verdict of the dispute's own deal, and the
    /// granted call fetches it from the arbitration service.
    pub open spec fn apply_request_transition(
        pre: Self,
        caller: Address,
        dispute_id: u64,
        deal_id: u64,
        r: Result<ArbitrationCall, MarketplaceError>,
    ) -> bool {
        let dp = pre.spec_dispute(dispute_id);
        if dp.deal_id == 0 {
            r matches Err(e) && e == MarketplaceError::NotFound
        } else if dp.deal_id != deal_id {
            r matches Err(e) && e == MarketplaceError::NotFound
        } else if caller != dp.requester && caller != pre.spec_deal(deal_id).beneficiary {
            r matches Err(e) && e == MarketplaceError::Unauthorized
        } else {
            r matches Ok(c) && c matches ArbitrationCall::Resolve { dispute_id: di } && di
                == dispute_id
        }
    }

    /// Ask to resolve a dispute: validates the caller and the
    /// dispute-to-deal link, then hands out the verdict fetch.  The
    /// environment performs it and feeds the boolean verdict to
    /// `settle_dispute` within the same atomic unit of work.
    pub fn apply_dispute_result(&self, caller: Address, dispute_id: u64, deal_id: u64) -> (r:
        Result<ArbitrationCall, MarketplaceError>)
        requires
            self.wf(),
        ensures
            Self::apply_request_transition(*self, caller, dispute_id, deal_id, r),
    {
        let j = match table_find(&self.disputes, dispute_id) {
            Some(j) => j,
            None => {
                return Err(MarketplaceError::NotFound);
            },
        };
        proof {
            lemma_key_at(self.disputes@, j as int);
        }
        let entry = self.disputes[j];
        if entry.dispute.deal_id != deal_id {
            return Err(MarketplaceError::NotFound);
        }
        let i = self.find_deal_index(deal_id);
        let deal = self.deals[i];
        if caller != entry.dispute.requester && caller != deal.beneficiary {
            return Err(MarketplaceError::Unauthorized);
        }
        Ok(ArbitrationCall::Resolve { dispute_id })
    }

    /// How `settle_dispute` relates the states it joins: with the verdict in
    /// hand, the winner — the requester when the verdict favours them, the
    /// beneficiary otherwise — is credited the amount minus the fee, and
    /// both the deal and its dispute revert to the sentinel.
    pub open spec fn settle_transition(
        pre: Self,
        post: Self,
        caller: Address,
        dispute_id: u64,
        deal_id: u64,
        verdict: bool,
        r: Result<(), MarketplaceError>,
    ) -> bool {
        let dp = pre.spec_dispute(dispute_id);
        let d = pre.spec_deal(deal_id);
        if dp.deal_id == 0 {
            &&& r == Err::<(), MarketplaceError>(MarketplaceError::NotFound)
            &&& post == pre
        } else if dp.deal_id != deal_id {
            &&& r == Err::<(), MarketplaceError>(MarketplaceError::NotFound)
            &&& post == pre
        } else if caller != dp.requester && caller != d.beneficiary {
            &&& r == Err::<(), MarketplaceError>(MarketplaceError::Unauthorized)
            &&& post == pre
        } else {
            let winner = if verdict {
                dp.requester
            } else {
                d.beneficiary
            };
            &&& r == Ok::<(), MarketplaceError>(())
            &&& post.spec_deal(deal_id) == Deal::absent()
            &&& forall|id: u64| id != deal_id ==> #[trigger] post.spec_deal(id) == pre.spec_deal(id)
            &&& post.spec_dispute(dispute_id) == Dispute::absent()
            &&& forall|id: u64|
                id != dispute_id ==> #[trigger] post.spec_dispute(id) == pre.spec_dispute(id)
            &&& post.spec_user(winner) == (User {
                balance: (pre.spec_user(winner).balance + payout_of(d.amount, pre.fee_percent))
                    as u128,
                ..pre.spec_user(winner)
            })
            &&& forall|b: Address| b != winner ==> #[trigger] post.spec_user(b) == pre.spec_user(b)
            &&& post.next_deal_id == pre.next_deal_id
            &&& post.fee_percent == pre.fee_percent
            &&& post.total_deposited == pre.total_deposited
            &&& Self::config_unchanged(pre, post)
        }
    }

    /// Settle a dispute with the verdict the arbitration service returned:
    /// pay the winner the amount minus the fee, then delete the deal and its
    /// dispute record.
    pub fn settle_dispute(
        &mut self,
        caller: Address,
        dispute_id: u64,
        deal_id: u64,
        verdict: bool,
    ) -> (r: Result<(), MarketplaceError>)
        requires
            old(self).wf(),
        ensures
            final(self).wf(),
            Self::settle_transition(*old(self), *final(self), caller, dispute_id, deal_id, verdict, r),
    {
        let j = match table_find(&self.disputes, dispute_id) {
            Some(j) => j,
            None => {
                return Err(MarketplaceError::NotFound);
            },
        };
        proof {
            lemma_key_at(self.disputes@, j as int);
        }
        let entry = self.disputes[j];
        if entry.dispute.deal_id != deal_id {
            return Err(MarketplaceError::NotFound);
        }
        let i = self.find_deal_index(deal_id);
        let prior = self.deals[i];
        if caller != entry.dispute.requester && caller != prior.beneficiary {
            return Err(MarketplaceError::Unauthorized);
        }
        let winner = if verdict {
            entry.dispute.requester
        } else {
            prior.beneficiary
        };
        proof {
            assert(prior.payer == entry.dispute.requester);
            assert(old(self).deal_inv(prior));
        }
        let fee = settlement_fee(prior.amount, self.fee_percent);
        let payout = prior.amount - fee;
        let k = self.find_user_index(winner);
        let prior_u = self.users[k];
        proof {
            Self::lemma_weights_nonneg(*self);
            lemma_weight_le_total(self.users@, k as int);
            lemma_weight_le_total(self.deals@, i as int);
            lemma_fee_payout_conservation(prior.amount, self.fee_percent);
        }
        let v = User { balance: prior_u.balance + (payout as u128), ..prior_u };
        self.users[k] = v;
        let ghost mid = *self;
        self.deals.remove(i);
        self.disputes.remove(j);
        proof {
            Self::lemma_user_update(*old(self), mid, k as int, v);
            Self::lemma_settle_remove(mid, *self, i as int, j as int);
        }
        Ok(())
    }
}

} // verus!
