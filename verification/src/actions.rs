use vstd::prelude::*;

use crate::account_view::{
    close_position_step, deposit_step, open_position_step, swap_action_step, swap_to_price_step,
    with_view_account, withdraw_fee_step, withdraw_step, AccountViewMut, AccountViewState,
};
use crate::dex::SendTokens;
use crate::error::{Error, ErrorKind, Result};
use crate::pool::Pool;
use crate::state::{with_registered, AccountState};
use crate::types::{
    Amount, BasisPoints, DepositPayment, PositionId, PositionInit, SwapAction, SwapKind,
    SwapToPriceAction, TokenId, WasmAmount,
};

verus! {

/// An action of a batch.
pub enum Action<L> {
    /// Registers the account; allowed once, as the first action of a batch.
    RegisterAccount,
    /// Registers the tokens for the account.
    RegisterTokens(Vec<TokenId>),
    /// Swaps an exact amount in.
    SwapExactIn(SwapAction),
    /// Swaps for an exact amount out.
    SwapExactOut(SwapAction),
    /// Swaps up to a price.
    SwapToPrice(SwapToPriceAction<L>),
    /// Deposits what came with the batch; allowed once.
    Deposit,
    /// Withdraws an amount of a token, or its whole balance for a zero amount.
    Withdraw(TokenId, WasmAmount),
    /// Opens a position on the pool of two tokens.
    OpenPosition { tokens: (TokenId, TokenId), fee_rate: BasisPoints, position: PositionInit },
    /// Closes a position.
    ClosePosition(PositionId),
    /// Pays out the fees of a position.
    WithdrawFee(PositionId),
}

/// What an action of a batch gave.
#[derive(Clone, Copy, Debug, PartialEq, Eq)]
pub enum ActionResult {
    RegisterAccount,
    RegisterTokens,
    SwapExactIn(Amount),
    SwapExactOut(Amount),
    SwapToPrice(Amount),
    Deposit,
    Withdraw(Option<SendTokens>),
    OpenPosition,
    ClosePosition,
    WithdrawFee,
}

/// Where a batch stands: the view of the account, whether the deposit was made, the token and
/// amount the last swap produced, and what the actions gave.
pub struct BatchState<P: Pool> {
    pub view: AccountViewState<P>,
    pub deposit_handled: bool,
    pub prev_swap: Option<(TokenId, SwapKind, Amount)>,
    pub results: Seq<ActionResult>,
}

/// The deposits of `payments` made in turn on `v`.
pub open spec fn deposits_step<P: Pool>(v: AccountViewState<P>, payments: Seq<DepositPayment>) -> Result<
    AccountViewState<P>,
>
    decreases payments.len(),
{
    if payments.len() == 0 {
        Ok(v)
    } else {
        match deposits_step(v, payments.drop_last()) {
            Err(e) => Err(e),
            Ok(w) => deposit_step(w, payments.last().token_id, payments.last().amount),
        }
    }
}

/// `v` with the tokens of `tokens` registered in its account.
pub open spec fn view_registered<P: Pool>(v: AccountViewState<P>, tokens: Seq<TokenId>) -> AccountViewState<P> {
    with_view_account(
        v,
        AccountState {
            balances: with_registered(v.account.balances, tokens),
            ..v.account
        },
    )
}

/// `b` with the view `v` and `result` recorded.
pub open spec fn recorded<P: Pool>(b: BatchState<P>, v: AccountViewState<P>, result: ActionResult) -> BatchState<P> {
    BatchState { view: v, results: b.results.push(result), ..b }
}

/// One action of a batch on `b`, `deposit_data` being what came with the batch, swaps being
/// made with protocol fee fraction `fee`.
///
/// Fails with `UnexpectedRegisterAccount` for an account registration past the first action,
/// with `DepositAlreadyHandled` for a second deposit, with `DepositNotAllowed` for a deposit
/// when nothing came with the batch, and with the failure of the action.
#[verifier::opaque]
pub open spec fn action_step<P: Pool>(
    b: BatchState<P>,
    deposit_data: Seq<DepositPayment>,
    action: Action<P::PriceLimit>,
    fee: BasisPoints,
) -> Result<BatchState<P>> {
    match action {
        Action::RegisterAccount => Err(Error { kind: ErrorKind::UnexpectedRegisterAccount }),
        Action::RegisterTokens(tokens) => Ok(
            recorded(b, view_registered(b.view, tokens@), ActionResult::RegisterTokens),
        ),
        Action::SwapExactIn(a) => match swap_action_step(
            view_registered(b.view, seq![a.token_in, a.token_out]),
            b.prev_swap,
            SwapKind::ExactIn,
            a,
            fee,
        ) {
            Err(e) => Err(e),
            Ok(x) => Ok(
                BatchState {
                    prev_swap: Some(x.0),
                    ..recorded(b, x.1, ActionResult::SwapExactIn(x.0.2))
                },
            ),
        },
        Action::SwapExactOut(a) => match swap_action_step(
            view_registered(b.view, seq![a.token_in, a.token_out]),
            b.prev_swap,
            SwapKind::ExactOut,
            a,
            fee,
        ) {
            Err(e) => Err(e),
            Ok(x) => Ok(
                BatchState {
                    prev_swap: Some(x.0),
                    ..recorded(b, x.1, ActionResult::SwapExactOut(x.0.2))
                },
            ),
        },
        Action::SwapToPrice(a) => match swap_to_price_step(
            view_registered(b.view, seq![a.token_in, a.token_out]),
            b.prev_swap,
            a,
            fee,
        ) {
            Err(e) => Err(e),
            Ok(x) => Ok(
                BatchState {
                    prev_swap: Some(x.0),
                    ..recorded(b, x.1, ActionResult::SwapToPrice(x.0.2))
                },
            ),
        },
        Action::Deposit => if b.deposit_handled {
            Err(Error { kind: ErrorKind::DepositAlreadyHandled })
        } else if deposit_data.len() == 0 {
            Err(Error { kind: ErrorKind::DepositNotAllowed })
        } else {
            match deposits_step(b.view, deposit_data) {
                Err(e) => Err(e),
                Ok(v) => Ok(
                    BatchState {
                        deposit_handled: true,
                        ..recorded(b, v, ActionResult::Deposit)
                    },
                ),
            }
        },
        Action::Withdraw(token, amount) => match withdraw_step(b.view, token, amount) {
            Err(e) => Err(e),
            Ok(x) => Ok(recorded(b, x.1, ActionResult::Withdraw(x.0))),
        },
        Action::OpenPosition { tokens, fee_rate, position } => match open_position_step(
            view_registered(b.view, seq![tokens.0, tokens.1]),
            tokens.0,
            tokens.1,
            fee_rate,
            position,
        ) {
            Err(e) => Err(e),
            Ok(x) => Ok(recorded(b, x.1, ActionResult::OpenPosition)),
        },
        Action::ClosePosition(position_id) => match close_position_step(b.view, position_id) {
            Err(e) => Err(e),
            Ok(v) => Ok(recorded(b, v, ActionResult::ClosePosition)),
        },
        Action::WithdrawFee(position_id) => match withdraw_fee_step(b.view, position_id) {
            Err(e) => Err(e),
            Ok(x) => Ok(recorded(b, x.1, ActionResult::WithdrawFee)),
        },
    }
}

/// The first `k` actions of `actions` done in turn on `b`, swaps being made with protocol fee
/// fraction `fee`.
pub open spec fn actions_fold<P: Pool>(
    b: BatchState<P>,
    deposit_data: Seq<DepositPayment>,
    actions: Seq<Action<P::PriceLimit>>,
    fee: BasisPoints,
    k: nat,
) -> Result<BatchState<P>>
    decreases k,
{
    if k == 0 {
        Ok(b)
    } else {
        match actions_fold(b, deposit_data, actions, fee, (k - 1) as nat) {
            Err(e) => Err(e),
            Ok(c) => action_step(c, deposit_data, actions[k - 1], fee),
        }
    }
}

/// An action that succeeds records exactly one result.
pub proof fn lemma_action_step_records_one<P: Pool>(
    b: BatchState<P>,
    deposit_data: Seq<DepositPayment>,
    action: Action<P::PriceLimit>,
    fee: BasisPoints,
)
    ensures
        action_step(b, deposit_data, action, fee) matches Ok(c) ==> c.results.len() == b.results.len() + 1,
{
    reveal(action_step);
}

/// The first `k` actions of a batch that succeed record `k` results.
pub proof fn lemma_actions_fold_results<P: Pool>(
    b: BatchState<P>,
    deposit_data: Seq<DepositPayment>,
    actions: Seq<Action<P::PriceLimit>>,
    fee: BasisPoints,
    k: nat,
)
    ensures
        actions_fold(b, deposit_data, actions, fee, k) matches Ok(c) ==> c.results.len() == b.results.len() + k,
    decreases k,
{
    if k > 0 {
        lemma_actions_fold_results(b, deposit_data, actions, fee, (k - 1) as nat);
        if let Ok(c) = actions_fold(b, deposit_data, actions, fee, (k - 1) as nat) {
            lemma_action_step_records_one(c, deposit_data, actions[k - 1], fee);
        }
    }
}

/// Once an action of a batch fails, the batch fails with that failure.
pub proof fn lemma_actions_failure<P: Pool>(
    b: BatchState<P>,
    deposit_data: Seq<DepositPayment>,
    actions: Seq<Action<P::PriceLimit>>,
    fee: BasisPoints,
    k: nat,
    m: nat,
)
    requires
        k <= m,
        actions_fold(b, deposit_data, actions, fee, k) is Err,
    ensures
        actions_fold(b, deposit_data, actions, fee, m) == actions_fold(
            b,
            deposit_data,
            actions,
            fee,
            k,
        ),
    decreases m,
{
    if m > k {
        lemma_actions_failure(b, deposit_data, actions, fee, k, (m - 1) as nat);
    }
}

/// Makes the deposits of `payments` in turn on `view`. See `deposits_step`.
pub fn deposit_payments<P: Pool>(view: &mut AccountViewMut<'_, P>, payments: &[DepositPayment]) -> (r:
    Result<()>)
    requires
        old(view).well_formed(),
    ensures
        final(view).well_formed(),
        final(view).fee_fraction() == old(view).fee_fraction(),
        final(view).base() == old(view).base(),
        final(view)@.account_id == old(view)@.account_id,
        match deposits_step(old(view)@, payments@) {
            Ok(v) => r is Ok && final(view)@ == v,
            Err(e) => r == Err::<(), Error>(e),
        },
{
    let ghost start = view@;
    let mut i: usize = 0;
    while i < payments.len()
        invariant
            i <= payments@.len(),
            start == old(view)@,
            view.well_formed(),
            view.fee_fraction() == old(view).fee_fraction(),
            view.base() == old(view).base(),
            view@.account_id == old(view)@.account_id,
            deposits_step(start, payments@.take(i as int)) == Ok::<AccountViewState<P>, Error>(view@),
        decreases payments@.len() - i,
    {
        let payment = payments[i];
        proof {
            assert(payments@.take(i + 1).drop_last() =~= payments@.take(i as int));
            assert(payments@.take(i + 1).last() == payment);
        }
        let ghost before = view@;
        if let Err(e) = view.deposit(&payment.token_id, payment.amount) {
            proof {
                assert(deposits_step(start, payments@.take(i + 1)) == deposit_step(before, payment.token_id, payment.amount));
                assert(deposits_step(start, payments@.take(i + 1)) == Err::<AccountViewState<P>, Error>(e));
                lemma_deposits_failure(start, payments@, (i + 1) as nat, payments@.len());
                assert(payments@.take(payments@.len() as int) =~= payments@);
            }
            return Err(e);
        }
        i += 1;
    }
    assert(payments@.take(payments@.len() as int) =~= payments@);
    Ok(())
}

/// Once a deposit fails, making the deposits fails with that failure.
proof fn lemma_deposits_failure<P: Pool>(v: AccountViewState<P>, payments: Seq<DepositPayment>, k: nat, m: nat)
    requires
        k <= m <= payments.len(),
        deposits_step(v, payments.take(k as int)) is Err,
    ensures
        deposits_step(v, payments.take(m as int)) == deposits_step(v, payments.take(k as int)),
    decreases m,
{
    if m > k {
        lemma_deposits_failure(v, payments, k, (m - 1) as nat);
        assert(payments.take(m as int).drop_last() =~= payments.take(m - 1));
    }
}

/// Where a batch stands, from its parts.
pub open spec fn batch_state<P: Pool>(
    view: AccountViewState<P>,
    deposit_handled: bool,
    prev_swap: Option<(TokenId, SwapKind, Amount)>,
    results: Seq<ActionResult>,
) -> BatchState<P> {
    BatchState { view, deposit_handled, prev_swap, results }
}

/// Performs one action of a batch on `view`, `deposit_data` being what came with the batch;
/// updates where the batch stands. See `action_step`.
#[verifier::rlimit(60)]
pub fn execute_action<P: Pool>(
    view: &mut AccountViewMut<'_, P>,
    deposit_handled: &mut bool,
    prev_swap: &mut Option<(TokenId, SwapKind, Amount)>,
    results: &mut Vec<ActionResult>,
    deposit_data: &[DepositPayment],
    action: &Action<P::PriceLimit>,
) -> (r: Result<()>)
    requires
        old(view).well_formed(),
    ensures
        final(view).well_formed(),
        final(view).fee_fraction() == old(view).fee_fraction(),
        final(view).base() == old(view).base(),
        final(view)@.account_id == old(view)@.account_id,
        match action_step(
            batch_state(old(view)@, *old(deposit_handled), *old(prev_swap), old(results)@),
            deposit_data@,
            *action,
            old(view).fee_fraction(),
        ) {
            Ok(b) => r is Ok && b == batch_state(
                final(view)@,
                *final(deposit_handled),
                *final(prev_swap),
                final(results)@,
            ),
            Err(e) => r == Err::<(), Error>(e),
        },
{
    reveal(action_step);
    let ghost b = batch_state(view@, *deposit_handled, *prev_swap, results@);
    let ghost fee = view.fee_fraction();
    match action {
        Action::RegisterAccount => {
            let e = Error::new(ErrorKind::UnexpectedRegisterAccount);
            assert(action_step(b, deposit_data@, *action, fee) == Err::<BatchState<P>, Error>(e));
            Err(e)
        },
        Action::RegisterTokens(tokens) => {
            view.register_tokens(tokens.as_slice());
            results.push(ActionResult::RegisterTokens);
            assert(action_step(b, deposit_data@, *action, fee) == Ok::<BatchState<P>, Error>(
                batch_state(view@, *deposit_handled, *prev_swap, results@),
            ));
            Ok(())
        },
        Action::SwapExactIn(a) | Action::SwapExactOut(a) => {
            let a = *a;
            let kind = if let Action::SwapExactIn(_) = action {
                SwapKind::ExactIn
            } else {
                SwapKind::ExactOut
            };
            let tokens = vec![a.token_in, a.token_out];
            assert(tokens@ =~= seq![a.token_in, a.token_out]);
            view.register_tokens(tokens.as_slice());
            let ghost registered = view@;
            let prev = *prev_swap;
            let r = view.execute_swap_action(&prev, kind, a);
            match r {
                Err(e) => {
                    assert(action_step(b, deposit_data@, *action, fee) == Err::<BatchState<P>, Error>(e));
                    Err(e)
                },
                Ok(x) => {
                    *prev_swap = Some(x);
                    if let SwapKind::ExactIn = kind {
                        results.push(ActionResult::SwapExactIn(x.2));
                    } else {
                        results.push(ActionResult::SwapExactOut(x.2));
                    }
                    assert(action_step(b, deposit_data@, *action, fee) == Ok::<BatchState<P>, Error>(
                        batch_state(view@, *deposit_handled, *prev_swap, results@),
                    ));
                    Ok(())
                },
            }
        },
        Action::SwapToPrice(a) => {
            let tokens = vec![a.token_in, a.token_out];
            assert(tokens@ =~= seq![a.token_in, a.token_out]);
            view.register_tokens(tokens.as_slice());
            let ghost registered = view@;
            let prev = *prev_swap;
            let r = view.execute_swap_to_price_action(&prev, a);
            match r {
                Err(e) => {
                    assert(action_step(b, deposit_data@, *action, fee) == Err::<BatchState<P>, Error>(e));
                    Err(e)
                },
                Ok(x) => {
                    *prev_swap = Some(x);
                    results.push(ActionResult::SwapToPrice(x.2));
                    assert(action_step(b, deposit_data@, *action, fee) == Ok::<BatchState<P>, Error>(
                        batch_state(view@, *deposit_handled, *prev_swap, results@),
                    ));
                    Ok(())
                },
            }
        },
        Action::Deposit => {
            if *deposit_handled {
                let e = Error::new(ErrorKind::DepositAlreadyHandled);
                assert(action_step(b, deposit_data@, *action, fee) == Err::<BatchState<P>, Error>(e));
                return Err(e);
            }
            if deposit_data.len() == 0 {
                let e = Error::new(ErrorKind::DepositNotAllowed);
                assert(action_step(b, deposit_data@, *action, fee) == Err::<BatchState<P>, Error>(e));
                return Err(e);
            }
            if let Err(e) = deposit_payments(view, deposit_data) {
                assert(action_step(b, deposit_data@, *action, fee) == Err::<BatchState<P>, Error>(e));
                return Err(e);
            }
            *deposit_handled = true;
            results.push(ActionResult::Deposit);
            assert(action_step(b, deposit_data@, *action, fee) == Ok::<BatchState<P>, Error>(
                batch_state(view@, *deposit_handled, *prev_swap, results@),
            ));
            Ok(())
        },
        Action::Withdraw(token_id, amount) => {
            match view.withdraw(token_id, *amount) {
                Err(e) => {
                    assert(action_step(b, deposit_data@, *action, fee) == Err::<BatchState<P>, Error>(e));
                    Err(e)
                },
                Ok(send) => {
                    results.push(ActionResult::Withdraw(send));
                    assert(action_step(b, deposit_data@, *action, fee) == Ok::<BatchState<P>, Error>(
                        batch_state(view@, *deposit_handled, *prev_swap, results@),
                    ));
                    Ok(())
                },
            }
        },
        Action::OpenPosition { tokens, fee_rate, position } => {
            let pair = vec![tokens.0, tokens.1];
            assert(pair@ =~= seq![tokens.0, tokens.1]);
            view.register_tokens(pair.as_slice());
            let ghost registered = view@;
            let r = view.open_position(&tokens.0, &tokens.1, *fee_rate, *position);
            match r {
                Err(e) => {
                    assert(action_step(b, deposit_data@, *action, fee) == Err::<BatchState<P>, Error>(e));
                    Err(e)
                },
                Ok(_) => {
                    results.push(ActionResult::OpenPosition);
                    assert(action_step(b, deposit_data@, *action, fee) == Ok::<BatchState<P>, Error>(
                        batch_state(view@, *deposit_handled, *prev_swap, results@),
                    ));
                    Ok(())
                },
            }
        },
        Action::ClosePosition(position_id) => {
            let ghost before = view@;
            let r = view.close_position(*position_id);
            match r {
                Err(e) => {
                    assert(action_step(b, deposit_data@, *action, fee) == Err::<BatchState<P>, Error>(e));
                    Err(e)
                },
                Ok(_) => {
                    results.push(ActionResult::ClosePosition);
                    assert(action_step(b, deposit_data@, *action, fee) == Ok::<BatchState<P>, Error>(
                        batch_state(view@, *deposit_handled, *prev_swap, results@),
                    ));
                    Ok(())
                },
            }
        },
        Action::WithdrawFee(position_id) => {
            let ghost before = view@;
            let r = view.withdraw_fee(*position_id);
            match r {
                Err(e) => {
                    assert(action_step(b, deposit_data@, *action, fee) == Err::<BatchState<P>, Error>(e));
                    Err(e)
                },
                Ok(_) => {
                    results.push(ActionResult::WithdrawFee);
                    assert(action_step(b, deposit_data@, *action, fee) == Ok::<BatchState<P>, Error>(
                        batch_state(view@, *deposit_handled, *prev_swap, results@),
                    ));
                    Ok(())
                },
            }
        },
    }
}

} // verus!
