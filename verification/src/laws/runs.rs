//! What holds of the construction of a transaction from its start, whatever the
//! wallets answer.

use vstd::prelude::*;

use super::inputs::{is_input_so_far, is_reserved, keeps_foreign, keeps_off_reserved};
use super::inputs::{law_book_lists_the_transaction, law_book_lists_the_transaction_at_first};
use super::inputs::{law_book_stays_until_built, law_builds_spare_reserved_utxos};
use super::inputs::{law_drains_spare_reserved_utxos, law_reserved_utxos_are_spared_at_first};
use super::inputs::{lists_the_transaction, psbts_are_new, spares};
use super::plans::law_payouts_sum_up;
use super::states::law_change_is_the_first_output_to_the_script;
use super::{fees_add_up, law_fees_add_up, law_fees_add_up_at_first, law_fees_stay_until_built};
use super::{law_outputs_are_payouts, outputs_are_payouts};
use crate::builder::current::{lemma_committed, lemma_completed};
use crate::builder::deprecated::lemma_drained;
use crate::builder_model::{sum_payouts, BuilderView};
use crate::construction::{are_turns, lemma_turns_keep_well_formed, WalletKeychains, WalletTurn};
use crate::finished::FinishedView;
use crate::placement::lists_once;
use crate::primitives::{KeychainId, OutPoint, WalletId};
use crate::psbt::{BuiltTx, Psbt, PsbtInput, TxPayout};
use crate::script::AddressInfo;
use crate::utxo_book::UtxoBookView;

verus! {

/// What came of the visit of a deprecated keychain that was emptied.
pub struct DrainAnswers {
    /// The weight of the inputs of the keychain.
    pub satisfaction_weight: usize,
    /// The address that its money goes to.
    pub drain_address: AddressInfo,
    /// The transaction that empties it.
    pub psbt: Psbt,
}

/// What came of the turn of a wallet.
pub struct TurnAnswers {
    /// What came of the visits of its deprecated keychains, if these are to be emptied.
    pub drains: Seq<DrainAnswers>,
    /// The weight of the inputs of the current keychain.
    pub satisfaction_weight: usize,
    pub change_address: AddressInfo,
    /// The number of payouts that the wallet can pay.
    pub paid: int,
    /// The transaction with these payouts.
    pub built: BuiltTx,
}

/// The first `n` deprecated keychains were emptied.
pub open spec fn after_drains(
    builder: BuilderView,
    keychains: Seq<KeychainId>,
    drains: Seq<DrainAnswers>,
    n: nat,
) -> BuilderView
    decreases n,
{
    if n == 0 {
        builder
    } else {
        after_drains(builder, keychains, drains, (n - 1) as nat).drained(
            keychains[n - 1],
            drains[n - 1].satisfaction_weight,
            drains[n - 1].psbt,
        )
    }
}

/// A wallet has its turn, and its first `n` deprecated keychains were visited.
pub open spec fn during_drains(
    builder: BuilderView,
    turn: WalletTurn,
    answers: TurnAnswers,
    n: nat,
) -> BuilderView {
    let started = builder.for_wallet(turn.0.id, turn.1@);
    if builder.consolidates() {
        after_drains(started, turn.0.deprecated@, answers.drains, n)
    } else {
        started
    }
}

/// A wallet has its turn, and all its deprecated keychains were visited.
pub open spec fn before_payouts(
    builder: BuilderView,
    turn: WalletTurn,
    answers: TurnAnswers,
) -> BuilderView {
    during_drains(builder, turn, answers, turn.0.deprecated@.len())
}

/// A wallet had its turn.
pub open spec fn after_turn(
    builder: BuilderView,
    turn: WalletTurn,
    answers: TurnAnswers,
) -> BuilderView {
    let ready = before_payouts(builder, turn, answers);
    if answers.paid == 0 {
        ready.between_wallets()
    } else {
        ready.committed(answers.paid).completed(
            turn.0.current,
            answers.satisfaction_weight,
            answers.change_address,
            sum_payouts(turn.1@, answers.paid as nat),
            answers.built,
        ).between_wallets()
    }
}

/// The first `n` wallets had their turn.
pub open spec fn after_turns(
    builder: BuilderView,
    turns: Seq<WalletTurn>,
    answers: Seq<TurnAnswers>,
    n: nat,
) -> BuilderView
    decreases n,
{
    if n == 0 {
        builder
    } else {
        after_turn(
            after_turns(builder, turns, answers, (n - 1) as nat),
            turns[n - 1],
            answers[n - 1],
        )
    }
}

/// Is this a build with nothing in it yet?
pub open spec fn is_start(builder: BuilderView) -> bool {
    builder == (BuilderView {
        consolidate_deprecated_keychains: builder.consolidate_deprecated_keychains,
        fee_rate: builder.fee_rate,
        reserved_utxos: builder.reserved_utxos,
        ..BuilderView::initial()
    })
}

/// Can the first `n` wallets have had their turn like that? Each pays none of its
/// payouts, or some, or all, and no transaction of a deprecated keychain is left open
/// when the next wallet has its turn. No wallet has two turns.
pub open spec fn is_run(
    builder: BuilderView,
    turns: Seq<WalletTurn>,
    answers: Seq<TurnAnswers>,
    n: nat,
) -> bool {
    &&& n <= turns.len()
    &&& n <= answers.len()
    &&& is_start(builder)
    &&& forall|i: int|
        0 <= i < n ==> 0 <= (#[trigger] answers[i]).paid <= turns[i].1@.len()
    &&& forall|i: nat|
        i < n ==> (#[trigger] after_turns(builder, turns, answers, i)).current_wallet_psbts.len()
            == 0
    &&& forall|i: int, j: int|
        0 <= i < j < n ==> (#[trigger] turns[i]).0.id != (#[trigger] turns[j]).0.id
}

/// Where the wallets are found under their ids, no wallet has two turns.
pub proof fn law_turns_differ(
    turns: Seq<WalletTurn>,
    order: Seq<WalletId>,
    wallets: Map<WalletId, WalletKeychains>,
    payouts: Map<WalletId, Vec<TxPayout>>,
)
    requires
        are_turns(turns, order, wallets, payouts),
        lists_once(order, payouts.dom()),
        forall|w: WalletId| #[trigger] payouts.contains_key(w) ==> wallets[w].id == w,
    ensures
        forall|i: int, j: int|
            0 <= i < j < turns.len() ==> (#[trigger] turns[i]).0.id != (#[trigger] turns[j]).0.id,
{
    assert forall|i: int| 0 <= i < turns.len() implies (#[trigger] turns[i]).0.id == order[i] by {
        assert(order.to_set().contains(order[i]));
        assert(payouts.contains_key(order[i]));
    }
}

/// Are the payouts in the transaction, for each of the first `n` wallets, those of its
/// payouts that it can pay, from the first on?
pub open spec fn has_prefixes(
    result: FinishedView,
    turns: Seq<WalletTurn>,
    answers: Seq<TurnAnswers>,
    n: nat,
) -> bool {
    &&& forall|i: int|
        0 <= i < n ==> {
            let wallet = (#[trigger] turns[i]).0.id;
            if answers[i].paid == 0 {
                !result.included_payouts.contains_key(wallet)
            } else {
                &&& result.included_payouts.contains_key(wallet)
                &&& result.included_payouts[wallet] == turns[i].1@.take(
                    answers[i].paid,
                ).map_values(|payout: TxPayout| (payout, 0u32))
            }
        }
    &&& forall|wallet: WalletId| #[trigger]
        result.included_payouts.contains_key(wallet) ==> exists|i: int|
            0 <= i < n && (#[trigger] turns[i]).0.id == wallet
}

/// Is one of the first `n` wallets visited at `keychain`?
pub open spec fn is_visited(
    turns: Seq<WalletTurn>,
    consolidates: bool,
    n: nat,
    wallet: WalletId,
    keychain: KeychainId,
) -> bool {
    exists|i: int|
        0 <= i < n && (#[trigger] turns[i]).0.id == wallet && is_keychain_of(
            turns[i].0,
            consolidates,
            keychain,
        )
}

/// Is `keychain` a keychain of the wallet that can be spent from: the current one, or
/// a deprecated one if these are to be emptied?
pub open spec fn is_keychain_of(
    wallet: WalletKeychains,
    consolidates: bool,
    keychain: KeychainId,
) -> bool {
    keychain == wallet.current || consolidates && wallet.deprecated@.contains(keychain)
}

/// Does no keychain belong to two of the first `n` wallets?
pub open spec fn keychains_differ(
    turns: Seq<WalletTurn>,
    consolidates: bool,
    n: nat,
) -> bool {
    forall|i: int, j: int, keychain: KeychainId|
        0 <= i < n && 0 <= j < n && i != j && #[trigger] is_keychain_of(
            turns[i].0,
            consolidates,
            keychain,
        ) ==> !(#[trigger] is_keychain_of(turns[j].0, consolidates, keychain))
}

/// The deprecated keychains of a wallet change nothing but the transactions that are
/// open.
pub proof fn lemma_after_drains(
    builder: BuilderView,
    keychains: Seq<KeychainId>,
    drains: Seq<DrainAnswers>,
    n: nat,
)
    requires
        n <= keychains.len(),
    ensures
        ({
            let now = after_drains(builder, keychains, drains, n);
            let open = builder.current_wallet_psbts;
            &&& builder.well_formed() ==> now.well_formed()
            &&& now.result == builder.result
            &&& now.all_included_utxos == builder.all_included_utxos
            &&& now.current_wallet == builder.current_wallet
            &&& now.current_payouts == builder.current_payouts
            &&& builder.same_configuration(now)
            &&& now.current_wallet_psbts.len() == open.len() + n
            &&& now.current_wallet_psbts.take(open.len() as int) == open
            &&& forall|a: int|
                open.len() <= a < open.len() + n ==> (#[trigger] now.current_wallet_psbts[a]).0
                    == keychains[a - open.len()]
        }),
    decreases n,
{
    let open = builder.current_wallet_psbts;
    if n == 0 {
        assert(open.take(open.len() as int) =~= open);
    } else {
        lemma_after_drains(builder, keychains, drains, (n - 1) as nat);
        let before = after_drains(builder, keychains, drains, (n - 1) as nat);
        let now = after_drains(builder, keychains, drains, n);
        let drain = drains[n - 1];
        if builder.well_formed() {
            lemma_drained(before, keychains[n - 1], drain.satisfaction_weight, drain.psbt);
        }
        assert(now.current_wallet_psbts.take(open.len() as int)
            =~= before.current_wallet_psbts.take(open.len() as int));
        assert forall|a: int| open.len() <= a < open.len() + n implies (
        #[trigger] now.current_wallet_psbts[a]).0 == keychains[a - open.len()] by {
            if a < open.len() + n - 1 {
                assert(now.current_wallet_psbts[a] == before.current_wallet_psbts[a]);
            }
        }
    }
}

/// What holds of a wallet that is about to make its payouts.
proof fn lemma_before_payouts(builder: BuilderView, turn: WalletTurn, answers: TurnAnswers)
    requires
        builder.well_formed(),
        builder.current_wallet_psbts.len() == 0,
    ensures
        ({
            let ready = before_payouts(builder, turn, answers);
            &&& ready.ready_for_wallet()
            &&& ready.result == builder.result
            &&& ready.all_included_utxos == builder.all_included_utxos
            &&& ready.book() == builder.book()
            &&& ready.current_wallet == Some(turn.0.id)
            &&& ready.current_payouts == turn.1@
            &&& builder.same_configuration(ready)
            &&& forall|a: int|
                0 <= a < ready.current_wallet_psbts.len() ==> is_keychain_of(
                    turn.0,
                    builder.consolidates(),
                    (#[trigger] ready.current_wallet_psbts[a]).0,
                )
        }),
{
    let started = builder.for_wallet(turn.0.id, turn.1@);
    lemma_turns_keep_well_formed(builder, turn.0.id, turn.1@);
    if builder.consolidates() {
        let keychains = turn.0.deprecated@;
        lemma_after_drains(started, keychains, answers.drains, keychains.len());
    }
    assert(before_payouts(builder, turn, answers).book() == builder.book());
}

/// The turns of wallets keep the build well-formed and configured as it was.
proof fn lemma_after_turns(
    builder: BuilderView,
    turns: Seq<WalletTurn>,
    answers: Seq<TurnAnswers>,
    n: nat,
)
    requires
        is_run(builder, turns, answers, n),
    ensures
        after_turns(builder, turns, answers, n).well_formed(),
        builder.same_configuration(after_turns(builder, turns, answers, n)),
    decreases n,
{
    if n == 0 {
        assert(builder.book() == BuilderView::initial().book());
    } else {
        lemma_after_turns(builder, turns, answers, (n - 1) as nat);
        let before = after_turns(builder, turns, answers, (n - 1) as nat);
        lemma_turn_is_ready(builder, turns, answers, (n - 1) as nat);
        let turn = turns[n - 1];
        let answer = answers[n - 1];
        let ready = before_payouts(before, turn, answer);
        if answer.paid == 0 {
            lemma_turns_keep_well_formed(ready, turn.0.id, turn.1@);
        } else {
            let output = sum_payouts(turn.1@, answer.paid as nat);
            lemma_committed(ready, answer.paid);
            lemma_completed(
                ready.committed(answer.paid),
                turn.0.current,
                answer.satisfaction_weight,
                answer.change_address,
                output,
                answer.built,
            );
            lemma_turns_keep_well_formed(
                ready.committed(answer.paid).completed(
                    turn.0.current,
                    answer.satisfaction_weight,
                    answer.change_address,
                    output,
                    answer.built,
                ),
                turn.0.id,
                turn.1@,
            );
        }
    }
}

/// The next wallet can have its turn.
proof fn lemma_turn_is_ready(
    builder: BuilderView,
    turns: Seq<WalletTurn>,
    answers: Seq<TurnAnswers>,
    n: nat,
)
    requires
        is_run(builder, turns, answers, n + 1),
        after_turns(builder, turns, answers, n).well_formed(),
    ensures
        ({
            let before = after_turns(builder, turns, answers, n);
            let ready = before_payouts(before, turns[n as int], answers[n as int]);
            &&& ready.ready_for_wallet()
            &&& ready.result == before.result
            &&& ready.book() == before.book()
            &&& ready.current_wallet == Some(turns[n as int].0.id)
            &&& ready.current_payouts == turns[n as int].1@
            &&& before.same_configuration(ready)
            &&& 0 <= answers[n as int].paid <= turns[n as int].1@.len()
            &&& forall|a: int|
                0 <= a < ready.current_wallet_psbts.len() ==> is_keychain_of(
                    turns[n as int].0,
                    before.consolidates(),
                    (#[trigger] ready.current_wallet_psbts[a]).0,
                )
        }),
{
    let before = after_turns(builder, turns, answers, n);
    assert(answers[n as int].paid <= turns[n as int].1@.len());
    assert(before.current_wallet_psbts.len() == 0);
    lemma_before_payouts(before, turns[n as int], answers[n as int]);
}

/// The payouts in the transaction are, for each wallet that had its turn, the first of
/// its payouts, as many as it can pay, and there are no others.
pub proof fn law_runs_include_prefixes(
    builder: BuilderView,
    turns: Seq<WalletTurn>,
    answers: Seq<TurnAnswers>,
    n: nat,
)
    requires
        is_run(builder, turns, answers, n),
    ensures
        has_prefixes(after_turns(builder, turns, answers, n).result, turns, answers, n),
    decreases n,
{
    if n > 0 {
        let m = (n - 1) as nat;
        law_runs_include_prefixes(builder, turns, answers, m);
        lemma_after_turns(builder, turns, answers, m);
        lemma_turn_is_ready(builder, turns, answers, m);
        let before = after_turns(builder, turns, answers, m).result;
        let now = after_turns(builder, turns, answers, n).result;
        let turn = turns[n - 1];
        let wallet = turn.0.id;
        let paid = answers[n - 1].paid;
        assert(!before.included_payouts.contains_key(wallet)) by {
            if before.included_payouts.contains_key(wallet) {
                let i = choose|i: int| 0 <= i < m && (#[trigger] turns[i]).0.id == wallet;
                assert(turns[i].0.id != turns[n - 1].0.id);
            }
        }
        if paid > 0 {
            assert(now.included_payouts[wallet] =~= turn.1@.take(paid).map_values(
                |payout: TxPayout| (payout, 0u32),
            ));
        }
        assert forall|i: int| 0 <= i < n implies {
            let id = (#[trigger] turns[i]).0.id;
            if answers[i].paid == 0 {
                !now.included_payouts.contains_key(id)
            } else {
                &&& now.included_payouts.contains_key(id)
                &&& now.included_payouts[id] == turns[i].1@.take(answers[i].paid).map_values(
                    |payout: TxPayout| (payout, 0u32),
                )
            }
        } by {
            if i < n - 1 {
                assert(turns[i].0.id != turns[n - 1].0.id);
            }
        }
        assert forall|w: WalletId| #[trigger] now.included_payouts.contains_key(w) implies exists|
            i: int,
        |
            0 <= i < n && (#[trigger] turns[i]).0.id == w by {
            if w == wallet {
                assert(turns[n - 1].0.id == w);
            } else {
                let i = choose|i: int| 0 <= i < m && (#[trigger] turns[i]).0.id == w;
                assert(turns[i].0.id == w);
            }
        }
    }
}

/// There is a transaction exactly where there is a payout in it: where one of the
/// wallets that had their turn can pay something.
pub proof fn law_runs_build_where_something_is_paid(
    builder: BuilderView,
    turns: Seq<WalletTurn>,
    answers: Seq<TurnAnswers>,
    n: nat,
)
    requires
        is_run(builder, turns, answers, n),
    ensures
        ({
            let result = after_turns(builder, turns, answers, n).result;
            let paid = exists|i: int| 0 <= i < n && (#[trigger] answers[i]).paid > 0;
            &&& result.psbt is Some <==> paid
            &&& result.tx_id is Some <==> paid
            &&& result.included_payouts.dom() != Set::<WalletId>::empty() <==> paid
        }),
    decreases n,
{
    let result = after_turns(builder, turns, answers, n).result;
    if n == 0 {
        assert(result.included_payouts.dom() =~= Set::empty());
    } else {
        let m = (n - 1) as nat;
        law_runs_build_where_something_is_paid(builder, turns, answers, m);
        lemma_after_turns(builder, turns, answers, m);
        lemma_turn_is_ready(builder, turns, answers, m);
        let before = after_turns(builder, turns, answers, m).result;
        if answers[n - 1].paid > 0 {
            assert(result.included_payouts.dom().contains(turns[n - 1].0.id));
        } else if exists|i: int| 0 <= i < m && (#[trigger] answers[i]).paid > 0 {
            let i = choose|i: int| 0 <= i < m && (#[trigger] answers[i]).paid > 0;
            assert(answers[i].paid > 0);
        }
    }
}

/// The fees of the wallets come to the fee of the transaction, and what each wallet
/// pays out is the sum of its payouts, after any number of turns.
pub proof fn law_runs_add_up(
    builder: BuilderView,
    turns: Seq<WalletTurn>,
    answers: Seq<TurnAnswers>,
    n: nat,
)
    requires
        is_run(builder, turns, answers, n),
    ensures
        after_turns(builder, turns, answers, n).well_formed(),
        fees_add_up(after_turns(builder, turns, answers, n).result),
        outputs_are_payouts(after_turns(builder, turns, answers, n).result),
    decreases n,
{
    lemma_after_turns(builder, turns, answers, n);
    if n == 0 {
        law_fees_add_up_at_first();
    } else {
        let m = (n - 1) as nat;
        law_runs_add_up(builder, turns, answers, m);
        law_runs_include_prefixes(builder, turns, answers, m);
        lemma_turn_is_ready(builder, turns, answers, m);
        let before = after_turns(builder, turns, answers, m);
        let turn = turns[n - 1];
        let answer = answers[n - 1];
        let ready = before_payouts(before, turn, answer);
        if answer.paid > 0 {
            assert(!before.result.wallet_totals.contains_key(turn.0.id)) by {
                if before.result.wallet_totals.dom().contains(turn.0.id) {
                    assert(before.result.included_payouts.contains_key(turn.0.id));
                    let i = choose|i: int| 0 <= i < m && (#[trigger] turns[i]).0.id == turn.0.id;
                    assert(turns[i].0.id != turns[n - 1].0.id);
                }
            }
            law_fees_stay_until_built(
                ready,
                turn.0.id,
                turn.1@,
                answer.paid,
                turn.0.current,
                answer.satisfaction_weight,
                answer.built.psbt,
            );
            law_fees_add_up(
                ready.committed(answer.paid),
                turn.0.current,
                answer.satisfaction_weight,
                answer.change_address,
                sum_payouts(turn.1@, answer.paid as nat),
                answer.built,
            );
            law_outputs_are_payouts(
                ready,
                answer.paid,
                turn.0.current,
                answer.satisfaction_weight,
                answer.change_address,
                answer.built,
            );
        }
    }
}

/// One more entry lists one keychain more at most. Under a keychain of its wallet it
/// keeps the wallets of the keychains right.
pub proof fn law_entries_keep_wallets_known(
    book: UtxoBookView,
    wallet: WalletId,
    keychain: KeychainId,
    outpoint: OutPoint,
)
    ensures
        ({
            let now = book.include_utxo(wallet, keychain, outpoint);
            &&& book.knows_wallets() && book.free_for(wallet, keychain) ==> now.knows_wallets()
            &&& forall|k: KeychainId| #[trigger]
                book.free_for(wallet, k) ==> now.free_for(wallet, k)
            &&& forall|w: WalletId, k: KeychainId| #[trigger]
                now.lists_keychain(w, k) ==> book.lists_keychain(w, k) || (w == wallet && k
                    == keychain)
        }),
{
    let now = book.include_utxo(wallet, keychain, outpoint);
    if book.knows_wallets() && book.free_for(wallet, keychain) {
        assert forall|w: WalletId, k: KeychainId| #[trigger] now.lists_keychain(w, k) implies {
            &&& now.utxos[w][k].len() > 0
            &&& now.keychains.contains_key(k)
            &&& now.keychains[k] == w
        } by {
            if !(w == wallet && k == keychain) {
                assert(book.lists_keychain(w, k));
            }
        }
        assert forall|k: KeychainId| #[trigger] now.keychains.contains_key(k) implies
            now.lists_keychain(now.keychains[k], k) by {
            if k != keychain {
                assert(book.lists_keychain(book.keychains[k], k));
            }
        }
    }
}

/// Entries for inputs of one keychain do the same.
proof fn lemma_inputs_keep_wallets_known(
    book: UtxoBookView,
    wallet: WalletId,
    keychain: KeychainId,
    inputs: Seq<PsbtInput>,
    n: nat,
)
    ensures
        ({
            let now = book.include_inputs(wallet, keychain, inputs, n);
            &&& book.knows_wallets() && book.free_for(wallet, keychain) ==> now.knows_wallets()
            &&& forall|k: KeychainId| #[trigger]
                book.free_for(wallet, k) ==> now.free_for(wallet, k)
            &&& forall|w: WalletId, k: KeychainId| #[trigger]
                now.lists_keychain(w, k) ==> book.lists_keychain(w, k) || (w == wallet && k
                    == keychain)
        }),
    decreases n,
{
    if n > 0 {
        lemma_inputs_keep_wallets_known(book, wallet, keychain, inputs, (n - 1) as nat);
        law_entries_keep_wallets_known(
            book.include_inputs(wallet, keychain, inputs, (n - 1) as nat),
            wallet,
            keychain,
            inputs[n - 1].previous_output,
        );
    }
}

/// Entries for the inputs of transactions do the same.
proof fn lemma_psbts_keep_wallets_known(
    book: UtxoBookView,
    wallet: WalletId,
    psbts: Seq<(KeychainId, Psbt)>,
    n: nat,
)
    requires
        n <= psbts.len(),
    ensures
        ({
            let now = book.include_psbts(wallet, psbts, n);
            &&& book.knows_wallets() && (forall|a: int|
                0 <= a < n ==> book.free_for(wallet, (#[trigger] psbts[a]).0))
                ==> now.knows_wallets()
            &&& forall|k: KeychainId| #[trigger]
                book.free_for(wallet, k) ==> now.free_for(wallet, k)
            &&& forall|w: WalletId, k: KeychainId| #[trigger]
                now.lists_keychain(w, k) ==> book.lists_keychain(w, k) || (w == wallet && exists|
                    a: int,
                |
                    0 <= a < n && (#[trigger] psbts[a]).0 == k)
        }),
    decreases n,
{
    if n > 0 {
        lemma_psbts_keep_wallets_known(book, wallet, psbts, (n - 1) as nat);
        let before = book.include_psbts(wallet, psbts, (n - 1) as nat);
        let now = book.include_psbts(wallet, psbts, n);
        let (keychain, psbt) = psbts[n - 1];
        lemma_inputs_keep_wallets_known(
            before,
            wallet,
            keychain,
            psbt.inputs@,
            psbt.inputs@.len(),
        );
        if book.knows_wallets() && forall|a: int|
            0 <= a < n ==> book.free_for(wallet, (#[trigger] psbts[a]).0) {
            assert(book.free_for(wallet, psbts[n - 1].0));
            assert(before.free_for(wallet, keychain));
        }
        assert forall|w: WalletId, k: KeychainId| #[trigger]
            now.lists_keychain(w, k) && !book.lists_keychain(w, k) implies w == wallet && exists|
            a: int,
        |
            0 <= a < n && (#[trigger] psbts[a]).0 == k by {
            if before.lists_keychain(w, k) {
                let a = choose|a: int| 0 <= a < n - 1 && (#[trigger] psbts[a]).0 == k;
                assert(psbts[a].0 == k);
            } else {
                assert(psbts[n - 1].0 == k);
            }
        }
    }
}

/// Entries for the inputs that had none do the same.
proof fn lemma_new_inputs_keep_wallets_known(
    book: UtxoBookView,
    wallet: WalletId,
    keychain: KeychainId,
    inputs: Seq<PsbtInput>,
    n: nat,
)
    ensures
        ({
            let now = book.attribute_inputs(wallet, keychain, inputs, n);
            &&& book.knows_wallets() && book.free_for(wallet, keychain) ==> now.knows_wallets()
            &&& book.free_for(wallet, keychain) ==> now.free_for(wallet, keychain)
            &&& forall|w: WalletId, k: KeychainId| #[trigger]
                now.lists_keychain(w, k) ==> book.lists_keychain(w, k) || (w == wallet && k
                    == keychain)
        }),
    decreases n,
{
    if n > 0 {
        lemma_new_inputs_keep_wallets_known(book, wallet, keychain, inputs, (n - 1) as nat);
        let before = book.attribute_inputs(wallet, keychain, inputs, (n - 1) as nat);
        let outpoint = inputs[n - 1].previous_output;
        if !before.included.contains(outpoint) {
            law_entries_keep_wallets_known(before, wallet, keychain, outpoint);
        }
    }
}

/// The book after the turn of a wallet, in terms of the book before.
proof fn lemma_book_after_turn(
    builder: BuilderView,
    turns: Seq<WalletTurn>,
    answers: Seq<TurnAnswers>,
    n: nat,
)
    requires
        is_run(builder, turns, answers, n + 1),
    ensures
        ({
            let book = after_turns(builder, turns, answers, n).book();
            let now = after_turns(builder, turns, answers, n + 1).book();
            let turn = turns[n as int];
            let consolidates = builder.consolidates();
            &&& book.knows_wallets() && (forall|k: KeychainId| #[trigger]
                is_keychain_of(turn.0, consolidates, k) ==> book.free_for(turn.0.id, k))
                ==> now.knows_wallets()
            &&& forall|w: WalletId, k: KeychainId| #[trigger]
                now.lists_keychain(w, k) ==> book.lists_keychain(w, k) || (w == turn.0.id
                    && is_keychain_of(turn.0, consolidates, k))
        }),
{
    lemma_after_turns(builder, turns, answers, n);
    lemma_turn_is_ready(builder, turns, answers, n);
    let before = after_turns(builder, turns, answers, n);
    let turn = turns[n as int];
    let answer = answers[n as int];
    let wallet = turn.0.id;
    let ready = before_payouts(before, turn, answer);
    let book = before.book();
    let now = after_turns(builder, turns, answers, n + 1).book();
    if answer.paid > 0 {
        let psbts = ready.current_wallet_psbts;
        let inputs = answer.built.psbt.inputs@;
        let mid = book.include_psbts(wallet, psbts, psbts.len());
        assert(is_keychain_of(turn.0, builder.consolidates(), turn.0.current));
        lemma_psbts_keep_wallets_known(book, wallet, psbts, psbts.len());
        lemma_new_inputs_keep_wallets_known(mid, wallet, turn.0.current, inputs, inputs.len());
        assert(ready.committed(answer.paid).book() == mid);
        assert(now == mid.attribute_inputs(wallet, turn.0.current, inputs, inputs.len()));
    } else {
        assert(now == book);
    }
}

/// Did the wallet keep to what it was asked for in turn `i`: all inputs of others are
/// in the transaction, and the deprecated keychains spent nothing twice?
pub open spec fn turn_keeps_inputs(
    builder: BuilderView,
    turns: Seq<WalletTurn>,
    answers: Seq<TurnAnswers>,
    i: nat,
) -> bool {
    let before = after_turns(builder, turns, answers, i);
    let ready = before_payouts(before, turns[i as int], answers[i as int]);
    &&& psbts_are_new(before.book(), ready.current_wallet_psbts)
    &&& keeps_foreign(
        ready.build_plan(
            turns[i as int].0.current,
            answers[i as int].paid,
            answers[i as int].change_address.address.script(),
        ),
        answers[i as int].built.psbt.inputs@,
    )
}

/// The book lists the inputs of the transaction, each once, and nothing else, after
/// any number of turns in which the wallets kept to what they were asked for.
pub proof fn law_runs_list_the_transaction(
    builder: BuilderView,
    turns: Seq<WalletTurn>,
    answers: Seq<TurnAnswers>,
    n: nat,
)
    requires
        is_run(builder, turns, answers, n),
        forall|i: nat|
            i < n && answers[i as int].paid > 0 ==> #[trigger] turn_keeps_inputs(
                builder,
                turns,
                answers,
                i,
            ),
    ensures
        lists_the_transaction(after_turns(builder, turns, answers, n)),
    decreases n,
{
    if n == 0 {
        law_book_lists_the_transaction_at_first();
        assert(builder.book() == BuilderView::initial().book());
    } else {
        let m = (n - 1) as nat;
        law_runs_list_the_transaction(builder, turns, answers, m);
        lemma_after_turns(builder, turns, answers, m);
        lemma_turn_is_ready(builder, turns, answers, m);
        let before = after_turns(builder, turns, answers, m);
        let turn = turns[n - 1];
        let answer = answers[n - 1];
        let ready = before_payouts(before, turn, answer);
        assert(lists_the_transaction(ready)) by {
            assert forall|o: OutPoint| #[trigger]
                ready.all_included_utxos.contains(o) <==> is_input_so_far(ready, o) by {
                assert(before.all_included_utxos.contains(o) <==> is_input_so_far(before, o));
            }
        }
        if answer.paid > 0 {
            assert(turn_keeps_inputs(builder, turns, answers, m));
            law_book_lists_the_transaction(
                ready,
                answer.paid,
                turn.0.current,
                answer.satisfaction_weight,
                answer.change_address,
                sum_payouts(turn.1@, answer.paid as nat),
                answer.built,
            );
            law_book_stays_until_built(
                ready.committed(answer.paid).completed(
                    turn.0.current,
                    answer.satisfaction_weight,
                    answer.change_address,
                    sum_payouts(turn.1@, answer.paid as nat),
                    answer.built,
                ),
                turn.0.id,
                turn.1@,
                turn.0.current,
                answer.satisfaction_weight,
                answer.built.psbt,
            );
        } else {
            law_book_stays_until_built(
                ready,
                turn.0.id,
                turn.1@,
                turn.0.current,
                answer.satisfaction_weight,
                answer.built.psbt,
            );
        }
    }
}

/// Did the wallets keep off what is reserved in turn `i`?
pub open spec fn turn_keeps_off_reserved(
    builder: BuilderView,
    turns: Seq<WalletTurn>,
    answers: Seq<TurnAnswers>,
    i: nat,
) -> bool {
    let before = after_turns(builder, turns, answers, i);
    let turn = turns[i as int];
    let answer = answers[i as int];
    &&& builder.consolidates() ==> forall|j: nat|
        j < turn.0.deprecated@.len() ==> keeps_off_reserved(
            (#[trigger] during_drains(before, turn, answer, j)).drain_plan(
                turn.0.deprecated@[j as int],
                answer.drains[j as int].drain_address.address.script(),
            ),
            answer.drains[j as int].psbt.inputs@,
        )
    &&& answer.paid > 0 ==> keeps_off_reserved(
        before_payouts(before, turn, answer).build_plan(
            turn.0.current,
            answer.paid,
            answer.change_address.address.script(),
        ),
        answer.built.psbt.inputs@,
    )
}

/// The first `n` deprecated keychains of a wallet spare what is reserved.
proof fn lemma_drains_spare_reserved_utxos(
    before: BuilderView,
    turn: WalletTurn,
    answer: TurnAnswers,
    n: nat,
    keychain: KeychainId,
    outpoint: OutPoint,
)
    requires
        n <= turn.0.deprecated@.len(),
        is_reserved(before, keychain, outpoint),
        spares(before, keychain, outpoint),
        before.consolidates() ==> forall|j: nat|
            j < turn.0.deprecated@.len() ==> keeps_off_reserved(
                (#[trigger] during_drains(before, turn, answer, j)).drain_plan(
                    turn.0.deprecated@[j as int],
                    answer.drains[j as int].drain_address.address.script(),
                ),
                answer.drains[j as int].psbt.inputs@,
            ),
    ensures
        spares(during_drains(before, turn, answer, n), keychain, outpoint),
        is_reserved(during_drains(before, turn, answer, n), keychain, outpoint),
    decreases n,
{
    if n > 0 && before.consolidates() {
        let m = (n - 1) as nat;
        lemma_drains_spare_reserved_utxos(before, turn, answer, m, keychain, outpoint);
        let drain = answer.drains[n - 1];
        law_drains_spare_reserved_utxos(
            during_drains(before, turn, answer, m),
            turn.0.deprecated@[n - 1],
            drain.satisfaction_weight,
            drain.drain_address.address.script(),
            drain.psbt,
            keychain,
            outpoint,
        );
    }
}

/// What is reserved of a keychain is never spent as an output of that keychain, after
/// any number of turns in which the wallets kept to their plans.
pub proof fn law_runs_spare_reserved_utxos(
    builder: BuilderView,
    turns: Seq<WalletTurn>,
    answers: Seq<TurnAnswers>,
    n: nat,
    keychain: KeychainId,
    outpoint: OutPoint,
)
    requires
        is_run(builder, turns, answers, n),
        is_reserved(builder, keychain, outpoint),
        forall|i: nat|
            i < n ==> #[trigger] turn_keeps_off_reserved(builder, turns, answers, i),
    ensures
        spares(after_turns(builder, turns, answers, n), keychain, outpoint),
    decreases n,
{
    if n == 0 {
        law_reserved_utxos_are_spared_at_first(keychain, outpoint);
    } else {
        let m = (n - 1) as nat;
        law_runs_spare_reserved_utxos(builder, turns, answers, m, keychain, outpoint);
        lemma_after_turns(builder, turns, answers, m);
        lemma_turn_is_ready(builder, turns, answers, m);
        let before = after_turns(builder, turns, answers, m);
        let turn = turns[n - 1];
        let answer = answers[n - 1];
        assert(turn_keeps_off_reserved(builder, turns, answers, m));
        lemma_drains_spare_reserved_utxos(
            before,
            turn,
            answer,
            turn.0.deprecated@.len(),
            keychain,
            outpoint,
        );
        if answer.paid > 0 {
            law_builds_spare_reserved_utxos(
                before_payouts(before, turn, answer),
                answer.paid,
                turn.0.current,
                answer.satisfaction_weight,
                answer.change_address,
                sum_payouts(turn.1@, answer.paid as nat),
                answer.built,
                keychain,
                outpoint,
            );
        }
    }
}

/// Only keychains of wallets that had their turn are spent from: current ones, and
/// deprecated ones only if these are to be emptied.
pub proof fn law_runs_spend_from_visited_keychains(
    builder: BuilderView,
    turns: Seq<WalletTurn>,
    answers: Seq<TurnAnswers>,
    n: nat,
    wallet: WalletId,
    keychain: KeychainId,
)
    requires
        is_run(builder, turns, answers, n),
        after_turns(builder, turns, answers, n).book().lists_keychain(wallet, keychain),
    ensures
        is_visited(turns, builder.consolidates(), n, wallet, keychain),
    decreases n,
{
    if n > 0 {
        let m = (n - 1) as nat;
        lemma_book_after_turn(builder, turns, answers, m);
        if after_turns(builder, turns, answers, m).book().lists_keychain(wallet, keychain) {
            law_runs_spend_from_visited_keychains(builder, turns, answers, m, wallet, keychain);
            let i = choose|i: int|
                0 <= i < m && (#[trigger] turns[i]).0.id == wallet && is_keychain_of(
                    turns[i].0,
                    builder.consolidates(),
                    keychain,
                );
            assert(turns[i].0.id == wallet);
        } else {
            assert(turns[n - 1].0.id == wallet);
        }
    }
}

/// Where no keychain belongs to two wallets, every keychain that is spent from is
/// listed under its wallet, with what is spent of it, and the build names the wallets
/// of exactly these keychains.
pub proof fn law_runs_know_wallets(
    builder: BuilderView,
    turns: Seq<WalletTurn>,
    answers: Seq<TurnAnswers>,
    n: nat,
)
    requires
        is_run(builder, turns, answers, n),
        keychains_differ(turns, builder.consolidates(), n),
    ensures
        after_turns(builder, turns, answers, n).book().knows_wallets(),
    decreases n,
{
    let consolidates = builder.consolidates();
    if n > 0 {
        let m = (n - 1) as nat;
        assert(keychains_differ(turns, consolidates, m));
        law_runs_know_wallets(builder, turns, answers, m);
        lemma_book_after_turn(builder, turns, answers, m);
        let book = after_turns(builder, turns, answers, m).book();
        let turn = turns[n - 1];
        assert forall|k: KeychainId| #[trigger] is_keychain_of(
            turn.0,
            consolidates,
            k,
        ) implies book.free_for(turn.0.id, k) by {
            if book.keychains.contains_key(k) {
                let owner = book.keychains[k];
                assert(book.lists_keychain(owner, k));
                law_runs_spend_from_visited_keychains(builder, turns, answers, m, owner, k);
                let i = choose|i: int|
                    0 <= i < m && (#[trigger] turns[i]).0.id == owner && is_keychain_of(
                        turns[i].0,
                        consolidates,
                        k,
                    );
                assert(!is_keychain_of(turns[n - 1].0, consolidates, k));
            }
        }
    }
}

/// Without consolidation only current keychains are spent from.
pub proof fn law_runs_spend_current_keychains(
    builder: BuilderView,
    turns: Seq<WalletTurn>,
    answers: Seq<TurnAnswers>,
    n: nat,
    wallet: WalletId,
    keychain: KeychainId,
)
    requires
        is_run(builder, turns, answers, n),
        !builder.consolidates(),
        after_turns(builder, turns, answers, n).book().lists_keychain(wallet, keychain),
    ensures
        exists|i: int|
            0 <= i < n && (#[trigger] turns[i]).0.id == wallet && turns[i].0.current == keychain,
{
    law_runs_spend_from_visited_keychains(builder, turns, answers, n, wallet, keychain);
    let i = choose|i: int|
        0 <= i < n && (#[trigger] turns[i]).0.id == wallet && is_keychain_of(
            turns[i].0,
            false,
            keychain,
        );
    assert(turns[i].0.current == keychain);
}

/// Drains are kept in the order of the keychains, each with its transaction, behind what
/// was open.
proof fn lemma_drains_are_open(
    builder: BuilderView,
    keychains: Seq<KeychainId>,
    drains: Seq<DrainAnswers>,
    n: nat,
)
    ensures
        ({
            let now = after_drains(builder, keychains, drains, n);
            let open = builder.current_wallet_psbts.len();
            &&& now.current_wallet_psbts.len() == open + n
            &&& forall|a: int|
                0 <= a < open ==> #[trigger] now.current_wallet_psbts[a]
                    == builder.current_wallet_psbts[a]
            &&& forall|a: int|
                open <= a < open + n ==> #[trigger] now.current_wallet_psbts[a] == (
                    keychains[a - open],
                    drains[a - open].psbt,
                )
            &&& now.consolidate_deprecated_keychains == builder.consolidate_deprecated_keychains
            &&& now.current_wallet == builder.current_wallet
            &&& now.result == builder.result
        }),
    decreases n,
{
    if n > 0 {
        lemma_drains_are_open(builder, keychains, drains, (n - 1) as nat);
    }
}

/// The configuration of a run stays as it is.
proof fn lemma_runs_keep_consolidation(
    builder: BuilderView,
    turns: Seq<WalletTurn>,
    answers: Seq<TurnAnswers>,
    n: nat,
)
    ensures
        after_turns(builder, turns, answers, n).consolidate_deprecated_keychains
            == builder.consolidate_deprecated_keychains,
    decreases n,
{
    if n > 0 {
        let before = after_turns(builder, turns, answers, (n - 1) as nat);
        let turn = turns[n - 1];
        lemma_runs_keep_consolidation(builder, turns, answers, (n - 1) as nat);
        lemma_drains_are_open(
            before.for_wallet(turn.0.id, turn.1@),
            turn.0.deprecated@,
            answers[n - 1].drains,
            turn.0.deprecated@.len(),
        );
    }
}

/// Where deprecated keychains are to be emptied, each deprecated keychain of each wallet
/// that has its turn is, whatever was built for the wallets before it: when the payouts of
/// the wallet come, its drains are open, one for each of its deprecated keychains and in
/// their order. Where they are not to be emptied, none is.
pub proof fn law_runs_drain_all_or_none(
    builder: BuilderView,
    turns: Seq<WalletTurn>,
    answers: Seq<TurnAnswers>,
    n: nat,
    i: nat,
)
    requires
        is_run(builder, turns, answers, n),
        i < n,
    ensures
        ({
            let turn = turns[i as int];
            let ready = before_payouts(
                after_turns(builder, turns, answers, i),
                turn,
                answers[i as int],
            );
            &&& builder.consolidate_deprecated_keychains == Some(true) ==> {
                &&& ready.current_wallet_psbts.len() == turn.0.deprecated@.len()
                &&& forall|a: int|
                    0 <= a < turn.0.deprecated@.len() ==> {
                        &&& (#[trigger] ready.current_wallet_psbts[a]).0 == turn.0.deprecated@[a]
                        &&& ready.current_wallet_psbts[a].1 == answers[i as int].drains[a].psbt
                    }
            }
            &&& builder.consolidate_deprecated_keychains != Some(true)
                ==> ready.current_wallet_psbts.len() == 0
        }),
{
    let before = after_turns(builder, turns, answers, i);
    let turn = turns[i as int];
    lemma_runs_keep_consolidation(builder, turns, answers, i);
    assert(before.current_wallet_psbts.len() == 0);
    lemma_drains_are_open(
        before.for_wallet(turn.0.id, turn.1@),
        turn.0.deprecated@,
        answers[i as int].drains,
        turn.0.deprecated@.len(),
    );
}

/// The visit of a deprecated keychain during a run opens its drain exactly where such
/// keychains are to be emptied, whatever was built and drained before.
pub proof fn law_runs_drain_at_each_visit(
    builder: BuilderView,
    turns: Seq<WalletTurn>,
    answers: Seq<TurnAnswers>,
    n: nat,
    i: nat,
    j: nat,
)
    requires
        is_run(builder, turns, answers, n),
        i < n,
        j < turns[i as int].0.deprecated@.len(),
    ensures
        ({
            let start = after_turns(builder, turns, answers, i);
            let before = during_drains(start, turns[i as int], answers[i as int], j);
            let now = during_drains(start, turns[i as int], answers[i as int], j + 1);
            if builder.consolidate_deprecated_keychains == Some(true) {
                &&& before.current_wallet_psbts.len() == j
                &&& now.current_wallet_psbts == before.current_wallet_psbts.push(
                    (
                        turns[i as int].0.deprecated@[j as int],
                        answers[i as int].drains[j as int].psbt,
                    ),
                )
            } else {
                now == before
            }
        }),
{
    let start = after_turns(builder, turns, answers, i);
    let turn = turns[i as int];
    lemma_runs_keep_consolidation(builder, turns, answers, i);
    assert(start.current_wallet_psbts.len() == 0);
    lemma_drains_are_open(
        start.for_wallet(turn.0.id, turn.1@),
        turn.0.deprecated@,
        answers[i as int].drains,
        j,
    );
}

/// The totals of a wallet that pays something in its turn: its payouts, the fee that the
/// transaction has beyond that of the one before, the value of the first output to its
/// change address, and these three together.
pub proof fn law_runs_total_each_turn(
    builder: BuilderView,
    turns: Seq<WalletTurn>,
    answers: Seq<TurnAnswers>,
    n: nat,
    i: nat,
    change: int,
)
    requires
        is_run(builder, turns, answers, n),
        i < n,
        answers[i as int].paid > 0,
        0 <= change < answers[i as int].built.psbt.outputs@.len(),
        answers[i as int].built.psbt.outputs@[change].script_pubkey@
            == answers[i as int].change_address.address.script(),
        forall|j: int|
            0 <= j < change ==> (
            #[trigger] answers[i as int].built.psbt.outputs@[j]).script_pubkey@
                != answers[i as int].change_address.address.script(),
    ensures
        ({
            let before = after_turns(builder, turns, answers, i).result;
            let result = after_turns(builder, turns, answers, i + 1).result;
            let total = result.wallet_totals[turns[i as int].0.id];
            let built = answers[i as int].built;
            &&& result.wallet_totals.contains_key(turns[i as int].0.id)
            &&& total.wallet_id == turns[i as int].0.id
            &&& total.change_keychain_id == turns[i as int].0.current
            &&& total.output_satoshis == turns[i as int].1@.take(answers[i as int].paid).fold_left(
                0int,
                |sum: int, payout: TxPayout| sum + payout.2@,
            )
            &&& total.fee_satoshis == built.fee - before.fee_satoshis
            &&& total.change_satoshis == built.psbt.outputs@[change].value
            &&& total.input_satoshis == total.output_satoshis + total.fee_satoshis
                + total.change_satoshis
            &&& total.change_address == answers[i as int].change_address
            &&& result.fee_satoshis == built.fee
            &&& result.tx_id == Some(built.txid)
            &&& result.psbt == Some(built.psbt)
        }),
{
    let before = after_turns(builder, turns, answers, i);
    let turn = turns[i as int];
    let built = answers[i as int].built;
    let address = answers[i as int].change_address;
    assert(answers[i as int].paid <= turn.1@.len());
    lemma_drains_are_open(
        before.for_wallet(turn.0.id, turn.1@),
        turn.0.deprecated@,
        answers[i as int].drains,
        turn.0.deprecated@.len(),
    );
    law_payouts_sum_up(turn.1@, answers[i as int].paid as nat);
    law_change_is_the_first_output_to_the_script(
        built.psbt.outputs@,
        address.address.script(),
    );
}

} // verus!
