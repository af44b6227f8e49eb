use vstd::prelude::*;
use crate::actions::TokenCall;
use crate::errors::MarketplaceError;
use crate::marketplace::{payment_due, Marketplace};
use crate::records::{Address, Deal};
use crate::table::{has_key, lemma_at_key, table_total};

verus! {

/// Global conservation: in every well-formed state, the sum of all user
/// withdrawable balances plus all unsettled escrow never exceeds the total
/// funds ever deposited by deal acceptance.
pub proof fn lemma_ledger_conservation(m: Marketplace)
    requires
        m.wf(),
    ensures
        table_total(m.users@) + table_total(m.deals@) <= m.total_deposited,
{
}

/// Deal identifiers are never reused: an identifier at or above the counter
/// has never been issued, so no deal — live or deleted — can carry it.
pub proof fn lemma_unissued_deal_absent(m: Marketplace, id: u64)
    requires
        m.wf(),
        id >= m.next_deal_id,
    ensures
        m.spec_deal(id) == Deal::absent(),
{
    if has_key(m.deals@, id) {
        lemma_at_key(m.deals@, id);
    }
}

/// Identifier monotonicity: a granted `create_deal` issues exactly the
/// current counter value — an identifier never seen before — and advances
/// the counter, so identifiers are strictly increasing and never reused
/// across create, reject and finish cycles.
pub proof fn lemma_create_issues_fresh_id(
    pre: Marketplace,
    post: Marketplace,
    caller: Address,
    payer: Address,
    amount: u64,
    duration: u64,
    r: Result<(), MarketplaceError>,
)
    requires
        pre.wf(),
        Marketplace::create_transition(pre, post, caller, payer, amount, duration, r),
        r == Ok::<(), MarketplaceError>(()),
    ensures
        pre.spec_deal(pre.next_deal_id) == Deal::absent(),
        post.spec_deal(pre.next_deal_id).deal_id == pre.next_deal_id,
        post.spec_deal(pre.next_deal_id).amount == amount,
        post.next_deal_id == pre.next_deal_id + 1,
{
    lemma_unissued_deal_absent(pre, pre.next_deal_id);
}

/// Single dispute per deal: once a deal's disputed flag is set, a further
/// dispute request on it — even by the payer — fails with `AlreadyExists`.
pub proof fn lemma_single_dispute_per_deal(
    pre: Marketplace,
    post: Marketplace,
    caller: Address,
    deal_id: u64,
    proof_data: Seq<u8>,
    r: Result<crate::actions::DisputeHandoff, MarketplaceError>,
)
    requires
        pre.wf(),
        pre.spec_deal(deal_id).disputed,
        caller == pre.spec_deal(deal_id).payer,
        Marketplace::request_dispute_transition(pre, post, caller, deal_id, proof_data, r),
    ensures
        r matches Err(e) && e == MarketplaceError::AlreadyExists,
        post == pre,
{
    if !has_key(pre.deals@, deal_id) {
        assert(!pre.spec_deal(deal_id).disputed);
    }
    lemma_at_key(pre.deals@, deal_id);
    let i = crate::table::key_index(pre.deals@, deal_id);
    assert(pre.deal_inv(pre.deals@[i]));
}

/// Reentrancy safety of withdrawals: when a withdrawal is granted, the
/// caller's ledger balance is already zero in the committed state — before
/// the environment performs the handed-out transfer — so a reentering call
/// from a malicious token can only fail with `InsufficientBalance`.
pub proof fn lemma_withdraw_reentrancy_safe(
    pre: Marketplace,
    post: Marketplace,
    caller: Address,
    r: Result<TokenCall, MarketplaceError>,
)
    requires
        pre.wf(),
        Marketplace::withdraw_transition(pre, post, caller, r),
        r matches Ok(t),
    ensures
        post.spec_user(caller).balance == 0,
        r == Ok::<TokenCall, MarketplaceError>(
            TokenCall::PayOut { recipient: caller, amount: pre.spec_user(caller).balance },
        ),
        forall|later: Marketplace, r2: Result<TokenCall, MarketplaceError>|
            #[trigger] Marketplace::withdraw_transition(post, later, caller, r2) ==> r2 == Err::<
                TokenCall,
                MarketplaceError,
            >(MarketplaceError::InsufficientBalance),
{
    Marketplace::lemma_present_user(pre, caller);
    assert(post.spec_user(caller).address == caller);
    assert(post.is_registered(caller)) by {
        if !has_key(post.users@, caller) {
            assert(post.spec_user(caller).address == 0);
        }
    }
}

/// Idempotent registration: registering an identity that is already
/// registered fails with `AlreadyExists` and changes nothing.
pub proof fn lemma_register_idempotent(
    pre: Marketplace,
    post: Marketplace,
    caller: Address,
    is_payer: bool,
    is_beneficiary: bool,
    is_judge: bool,
    r: Result<(), MarketplaceError>,
)
    requires
        pre.wf(),
        pre.is_registered(caller),
        Marketplace::register_transition(pre, post, caller, is_payer, is_beneficiary, is_judge, r),
    ensures
        r == Err::<(), MarketplaceError>(MarketplaceError::AlreadyExists),
        post == pre,
{
    lemma_at_key(pre.users@, caller);
}

/// Adding an already-held role is a no-op, not an error: the caller's record
/// is unchanged.
pub proof fn lemma_add_role_noop(
    pre: Marketplace,
    post: Marketplace,
    caller: Address,
    is_payer: bool,
    is_beneficiary: bool,
    is_judge: bool,
    r: Result<(), MarketplaceError>,
)
    requires
        Marketplace::add_role_transition(pre, post, caller, is_payer, is_beneficiary, is_judge, r),
        r == Ok::<(), MarketplaceError>(()),
        is_payer ==> pre.spec_user(caller).is_payer,
        is_beneficiary ==> pre.spec_user(caller).is_beneficiary,
        is_judge ==> pre.spec_user(caller).is_judge,
    ensures
        post.spec_user(caller) == pre.spec_user(caller),
        forall|b: Address| b != caller ==> #[trigger] post.spec_user(b) == pre.spec_user(b),
{
}

/// State-guard completeness for `create_deal`: the transition succeeds only
/// with a positive amount, a nonzero payer, and both parties holding the
/// required roles.
pub proof fn lemma_create_guard(
    pre: Marketplace,
    post: Marketplace,
    caller: Address,
    payer: Address,
    amount: u64,
    duration: u64,
    r: Result<(), MarketplaceError>,
)
    requires
        Marketplace::create_transition(pre, post, caller, payer, amount, duration, r),
        r == Ok::<(), MarketplaceError>(()),
    ensures
        amount > 0,
        payer != 0,
        pre.spec_user(caller).is_beneficiary,
        pre.spec_user(payer).is_payer,
{
}

/// State-guard completeness for the pre-acceptance edits and rejection:
/// they succeed only on a live deal, called by its payer, before acceptance.
pub proof fn lemma_edit_reject_guards(
    pre: Marketplace,
    post: Marketplace,
    caller: Address,
    deal_id: u64,
    new_amount: u64,
    new_duration: u16,
    r_amount: Result<(), MarketplaceError>,
    r_duration: Result<(), MarketplaceError>,
    r_reject: Result<(), MarketplaceError>,
)
    ensures
        Marketplace::update_amount_transition(pre, post, caller, deal_id, new_amount, r_amount)
            && r_amount == Ok::<(), MarketplaceError>(()) ==> pre.spec_deal(deal_id).amount > 0
            && caller == pre.spec_deal(deal_id).payer && !pre.spec_deal(deal_id).accepted
            && new_amount > 0,
        Marketplace::update_duration_transition(pre, post, caller, deal_id, new_duration, r_duration)
            && r_duration == Ok::<(), MarketplaceError>(()) ==> pre.spec_deal(deal_id).amount > 0
            && caller == pre.spec_deal(deal_id).payer && !pre.spec_deal(deal_id).accepted
            && new_duration > 0,
        Marketplace::reject_transition(pre, post, caller, deal_id, r_reject) && r_reject == Ok::<
            (),
            MarketplaceError,
        >(()) ==> pre.spec_deal(deal_id).amount > 0 && caller == pre.spec_deal(deal_id).payer
            && !pre.spec_deal(deal_id).accepted,
{
}

/// State-guard completeness for `accept_deal`: it succeeds only on a live,
/// not yet accepted deal, called by its payer.
pub proof fn lemma_accept_guard(
    pre: Marketplace,
    post: Marketplace,
    caller: Address,
    deal_id: u64,
    now: u64,
    r: Result<TokenCall, MarketplaceError>,
)
    requires
        Marketplace::accept_transition(pre, post, caller, deal_id, now, r),
        r matches Ok(t),
    ensures
        pre.spec_deal(deal_id).amount > 0,
        caller == pre.spec_deal(deal_id).payer,
        !pre.spec_deal(deal_id).accepted,
{
}

/// State-guard completeness for `finish_deal`: it succeeds only on an
/// `Active`, undisputed deal, called by its payer.
pub proof fn lemma_finish_guard(
    pre: Marketplace,
    post: Marketplace,
    caller: Address,
    deal_id: u64,
    r: Result<(), MarketplaceError>,
)
    requires
        Marketplace::finish_transition(pre, post, caller, deal_id, r),
        r == Ok::<(), MarketplaceError>(()),
    ensures
        pre.spec_deal(deal_id).amount > 0,
        caller == pre.spec_deal(deal_id).payer,
        pre.spec_deal(deal_id).accepted,
        !pre.spec_deal(deal_id).disputed,
{
}

/// State-guard completeness for the timeout payout: it succeeds only on an
/// `Active`, undisputed deal, called by its beneficiary, once the duration
/// plus the grace period has elapsed.
pub proof fn lemma_payment_guard(
    pre: Marketplace,
    post: Marketplace,
    caller: Address,
    deal_id: u64,
    now: u64,
    r: Result<(), MarketplaceError>,
)
    requires
        Marketplace::payment_transition(pre, post, caller, deal_id, now, r),
        r == Ok::<(), MarketplaceError>(()),
    ensures
        pre.spec_deal(deal_id).amount > 0,
        caller == pre.spec_deal(deal_id).beneficiary,
        pre.spec_deal(deal_id).accepted,
        !pre.spec_deal(deal_id).disputed,
        payment_due(pre.spec_deal(deal_id), now),
{
}

/// State-guard completeness for `request_dispute`: it succeeds only on an
/// `Active`, not yet disputed deal, called by its payer.
pub proof fn lemma_request_dispute_guard(
    pre: Marketplace,
    post: Marketplace,
    caller: Address,
    deal_id: u64,
    proof_data: Seq<u8>,
    r: Result<crate::actions::DisputeHandoff, MarketplaceError>,
)
    requires
        Marketplace::request_dispute_transition(pre, post, caller, deal_id, proof_data, r),
        r matches Ok(h),
    ensures
        pre.spec_deal(deal_id).amount > 0,
        caller == pre.spec_deal(deal_id).payer,
        pre.spec_deal(deal_id).accepted,
        !pre.spec_deal(deal_id).disputed,
{
}

/// State-guard completeness for dispute settlement: it succeeds only on a
/// recorded dispute matching the named deal, called by an involved party.
pub proof fn lemma_settle_guard(
    pre: Marketplace,
    post: Marketplace,
    caller: Address,
    dispute_id: u64,
    deal_id: u64,
    verdict: bool,
    r: Result<(), MarketplaceError>,
)
    requires
        Marketplace::settle_transition(pre, post, caller, dispute_id, deal_id, verdict, r),
        r == Ok::<(), MarketplaceError>(()),
    ensures
        pre.spec_dispute(dispute_id).deal_id == deal_id,
        deal_id != 0,
        caller == pre.spec_dispute(dispute_id).requester || caller == pre.spec_deal(
            deal_id,
        ).beneficiary,
{
}

} // verus!
