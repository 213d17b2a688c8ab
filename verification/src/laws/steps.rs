//! What holds of the steps in which the construction of a transaction goes on.

use std::collections::HashMap;

use bdk::FeeRate;
use vstd::prelude::*;

use super::runs::{after_turns, before_payouts, during_drains, is_start, lemma_after_drains};
use super::runs::{DrainAnswers, TurnAnswers};
use crate::builder::{AcceptingCurrentKeychainState, AcceptingDeprecatedKeychainState};
use crate::builder::{InitialPsbtBuilderState, PsbtBuilder};
use crate::builder_model::{sum_payouts, BuilderView};
use crate::construction::{are_turns, Agenda, AgendaView, Construction, CurrentTurn};
use crate::construction::{DeprecatedTurn, WalletKeychains, WalletTurn};
use crate::placement::{lists_once, lists_view};
use crate::primitives::{KeychainId, OutPoint, WalletId};
use crate::psbt::TxPayout;

verus! {

/// Does the construction stand at wallet `i`, after the visits of its first `j`
/// deprecated keychains, or at the end if there is no wallet `i`?
pub open spec fn stands_at(
    step: Construction,
    start: BuilderView,
    turns: Seq<WalletTurn>,
    answers: Seq<TurnAnswers>,
    i: nat,
    j: nat,
) -> bool {
    if i < turns.len() {
        let turn = turns[i as int];
        &&& j <= turn.0.deprecated@.len()
        &&& step.visits_next(
            during_drains(
                after_turns(start, turns, answers, i),
                turn,
                answers[i as int],
                j,
            ),
            AgendaView {
                deprecated: turn.0.deprecated@.skip(j as int),
                current: turn.0.current,
                wallets: turns.skip((i + 1) as int),
            },
        )
    } else {
        &&& i == turns.len()
        &&& step matches Construction::AllVisited(done) && done@ == after_turns(
            start,
            turns,
            answers,
            turns.len(),
        ).between_wallets()
    }
}

/// A deprecated keychain was visited: it was emptied, if that was asked for.
pub open spec fn after_deprecated_visit(
    builder: BuilderView,
    keychain: KeychainId,
    drain: DrainAnswers,
) -> BuilderView {
    if builder.consolidates() {
        builder.drained(keychain, drain.satisfaction_weight, drain.psbt)
    } else {
        builder
    }
}

/// A current keychain was visited: the transaction with the payouts that its wallet can
/// pay was built, if there are any.
pub open spec fn after_current_visit(
    builder: BuilderView,
    keychain: KeychainId,
    answers: TurnAnswers,
) -> BuilderView {
    if answers.paid == 0 {
        builder
    } else {
        builder.committed(answers.paid).completed(
            keychain,
            answers.satisfaction_weight,
            answers.change_address,
            sum_payouts(builder.current_payouts, answers.paid as nat),
            answers.built,
        )
    }
}

/// The construction starts at the first wallet.
pub proof fn law_construction_starts_at_the_first_wallet(
    first: Construction,
    start: BuilderView,
    turns: Seq<WalletTurn>,
    answers: Seq<TurnAnswers>,
)
    requires
        first.takes_next_wallet(start, turns),
    ensures
        stands_at(first, start, turns, answers, 0, 0),
{
    if turns.len() > 0 {
        let deprecated = turns[0].0.deprecated@;
        assert(deprecated.skip(0) =~= deprecated);
    }
}

/// The visit of a deprecated keychain takes the construction one keychain further.
pub proof fn law_deprecated_visits_go_on(
    visit: DeprecatedTurn,
    next: Construction,
    start: BuilderView,
    turns: Seq<WalletTurn>,
    answers: Seq<TurnAnswers>,
    i: nat,
    j: nat,
)
    requires
        stands_at(Construction::VisitDeprecated(visit), start, turns, answers, i, j),
        next.visits_next(
            after_deprecated_visit(
                visit.builder@,
                visit.keychain_id,
                answers[i as int].drains[j as int],
            ),
            visit.agenda@,
        ),
    ensures
        i < turns.len(),
        j < turns[i as int].0.deprecated@.len(),
        visit.keychain_id == turns[i as int].0.deprecated@[j as int],
        stands_at(next, start, turns, answers, i, j + 1),
{
    let turn = turns[i as int];
    let answer = answers[i as int];
    let before = after_turns(start, turns, answers, i);
    let deprecated = turn.0.deprecated@;
    assert(deprecated.skip(j as int).len() > 0);
    assert(deprecated.skip(j as int).skip(1) =~= deprecated.skip((j + 1) as int));
    if before.consolidates() {
        lemma_after_drains(before.for_wallet(turn.0.id, turn.1@), deprecated, answer.drains, j);
    }
    assert(visit.builder@.consolidates() == before.consolidates());
    assert(after_deprecated_visit(
        visit.builder@,
        visit.keychain_id,
        answer.drains[j as int],
    ) == during_drains(before, turn, answer, j + 1));
}

/// The visit of a current keychain takes the construction to the next wallet, or to its
/// end.
pub proof fn law_current_visits_go_on(
    visit: CurrentTurn,
    next: Construction,
    start: BuilderView,
    turns: Seq<WalletTurn>,
    answers: Seq<TurnAnswers>,
    i: nat,
    j: nat,
)
    requires
        stands_at(Construction::VisitCurrent(visit), start, turns, answers, i, j),
        next.takes_next_wallet(
            after_current_visit(visit.builder@, visit.keychain_id, answers[i as int]),
            visit.agenda@.wallets,
        ),
    ensures
        i < turns.len(),
        j == turns[i as int].0.deprecated@.len(),
        visit.keychain_id == turns[i as int].0.current,
        stands_at(next, start, turns, answers, i + 1, 0),
{
    let turn = turns[i as int];
    let answer = answers[i as int];
    let before = after_turns(start, turns, answers, i);
    let deprecated = turn.0.deprecated@;
    assert(deprecated.skip(j as int).len() == 0);
    if before.consolidates() {
        lemma_after_drains(before.for_wallet(turn.0.id, turn.1@), deprecated, answer.drains, j);
    }
    assert(visit.builder@ == before_payouts(before, turn, answer));
    assert(visit.builder@.current_payouts == turn.1@);
    let visited = after_current_visit(visit.builder@, visit.keychain_id, answer);
    let after = after_turns(start, turns, answers, i + 1);
    assert(after == visited.between_wallets());
    let rest = turns.skip((i + 1) as int);
    if i + 1 < turns.len() {
        let (wallet, payouts) = rest[0];
        assert(rest[0] == turns[(i + 1) as int]);
        assert(rest.skip(1) =~= turns.skip((i + 2) as int));
        assert(wallet.deprecated@.skip(0) =~= wallet.deprecated@);
        assert(visited.for_wallet(wallet.id, payouts@) == after.for_wallet(
            wallet.id,
            payouts@,
        ));
    }
}

/// When all keychains were visited, the build is what the turns of all wallets come to.
pub proof fn law_construction_ends_after_all_turns(
    last: Construction,
    start: BuilderView,
    turns: Seq<WalletTurn>,
    answers: Seq<TurnAnswers>,
    i: nat,
    j: nat,
)
    requires
        stands_at(last, start, turns, answers, i, j),
        last is AllVisited,
    ensures
        i == turns.len(),
        last.builder() == after_turns(start, turns, answers, turns.len()).between_wallets(),
        is_start(start) ==> last.builder() == after_turns(start, turns, answers, turns.len()),
{
    if is_start(start) && turns.len() > 0 {
        assert(after_turns(start, turns, answers, turns.len()).current_payouts =~= Seq::empty());
    }
}

/// After the visit of a deprecated keychain the next deprecated keychain of the same wallet
/// is visited, or its current one if there is none left, with the builder as it is. The
/// wallets that wait keep waiting.
pub proof fn law_keychains_are_visited_in_order(
    agenda: Agenda,
    builder: PsbtBuilder<AcceptingDeprecatedKeychainState>,
    next: Construction,
)
    requires
        call_ensures(Agenda::deprecated_visited, (agenda, builder), next),
    ensures
        next is VisitDeprecated <==> agenda@.deprecated.len() > 0,
        next is VisitCurrent <==> agenda@.deprecated.len() == 0,
        next matches Construction::VisitDeprecated(turn) ==> {
            &&& turn.builder@ == builder@
            &&& turn.keychain_id == agenda@.deprecated[0]
            &&& turn.agenda@.deprecated == agenda@.deprecated.subrange(
                1,
                agenda@.deprecated.len() as int,
            )
            &&& turn.agenda@.current == agenda@.current
            &&& turn.agenda@.wallets == agenda@.wallets
        },
        next matches Construction::VisitCurrent(turn) ==> {
            &&& turn.builder@ == builder@
            &&& turn.keychain_id == agenda@.current
            &&& turn.agenda@.wallets == agenda@.wallets
        },
{
    assert(agenda@.deprecated.len() > 0 ==> agenda@.deprecated.skip(1)
        =~= agenda@.deprecated.subrange(1, agenda@.deprecated.len() as int));
}

/// After the visit of the current keychain of a wallet the first of the wallets that wait
/// has its turn, with all of its payouts and keychains, and all that was built and
/// configured stays. Without such a wallet the construction is over.
pub proof fn law_wallets_have_their_turns_in_order(
    agenda: Agenda,
    builder: PsbtBuilder<AcceptingCurrentKeychainState>,
    next: Construction,
)
    requires
        call_ensures(Agenda::current_visited, (agenda, builder), next),
    ensures
        next is AllVisited <==> agenda@.wallets.len() == 0,
        next.builder().consolidate_deprecated_keychains
            == builder@.consolidate_deprecated_keychains,
        next.builder().fee_rate == builder@.fee_rate,
        next.builder().reserved_utxos == builder@.reserved_utxos,
        next.builder().result == builder@.result,
        next.builder().input_weights == builder@.input_weights,
        next.builder().all_included_utxos == builder@.all_included_utxos,
        next.builder().current_wallet_psbts == builder@.current_wallet_psbts,
        agenda@.wallets.len() == 0 ==> next.builder().current_wallet is None
            && next.builder().current_payouts.len() == 0,
        agenda@.wallets.len() > 0 ==> {
            let (wallet, payouts) = agenda@.wallets[0];
            &&& next.builder().current_wallet == Some(wallet.id)
            &&& next.builder().current_payouts == payouts@
            &&& next is VisitDeprecated <==> wallet.deprecated@.len() > 0
            &&& next matches Construction::VisitDeprecated(turn) ==> {
                &&& turn.keychain_id == wallet.deprecated@[0]
                &&& turn.agenda@.deprecated == wallet.deprecated@.subrange(
                    1,
                    wallet.deprecated@.len() as int,
                )
                &&& turn.agenda@.current == wallet.current
                &&& turn.agenda@.wallets == agenda@.wallets.subrange(
                    1,
                    agenda@.wallets.len() as int,
                )
            }
            &&& next matches Construction::VisitCurrent(turn) ==> {
                &&& turn.keychain_id == wallet.current
                &&& turn.agenda@.wallets == agenda@.wallets.subrange(
                    1,
                    agenda@.wallets.len() as int,
                )
            }
        },
{
    let wallets = agenda@.wallets;
    if wallets.len() > 0 {
        let deprecated = wallets[0].0.deprecated@;
        assert(wallets.skip(1) =~= wallets.subrange(1, wallets.len() as int));
        assert(deprecated.len() > 0 ==> deprecated.skip(1) =~= deprecated.subrange(
            1,
            deprecated.len() as int,
        ));
    }
}

/// A wallet is the last exactly if no other waits.
pub proof fn law_last_wallets(agenda: Agenda, last: bool)
    requires
        call_ensures(Agenda::is_last_wallet, (&agenda,), last),
    ensures
        last <==> agenda@.wallets.len() == 0,
{
}

/// The construction starts with what it was configured with and nothing built. It is over
/// at once where there are no payouts; else a wallet with payouts has the first turn.
pub proof fn law_construction_starts_as_configured(
    consolidate: bool,
    rate: FeeRate,
    reserved: HashMap<KeychainId, Vec<OutPoint>>,
    payouts: HashMap<WalletId, Vec<TxPayout>>,
    wallets: HashMap<WalletId, WalletKeychains>,
    first: Construction,
    keychain: KeychainId,
)
    requires
        call_ensures(
            PsbtBuilder::<InitialPsbtBuilderState>::construct_psbt,
            (consolidate, rate, reserved, payouts, wallets),
            first,
        ),
    ensures
        first.builder().consolidate_deprecated_keychains == Some(consolidate),
        first.builder().fee_rate == Some(rate),
        first.builder().reserved_utxos is Some,
        first.builder().reserved_utxos->0.contains_key(keychain) <==> reserved@.contains_key(
            keychain,
        ),
        reserved@.contains_key(keychain) ==> first.builder().reserved_utxos->0[keychain]
            == reserved@[keychain]@,
        first.builder().result.psbt is None,
        first.builder().result.tx_id is None,
        first.builder().result.fee_satoshis == 0,
        first.builder().current_wallet_psbts.len() == 0,
        first is AllVisited <==> payouts@.dom() == Set::<WalletId>::empty(),
        !(first is AllVisited) ==> exists|wallet: WalletId|
            {
                &&& #[trigger] payouts@.contains_key(wallet)
                &&& first.builder().current_wallet == Some(wallets@[wallet].id)
                &&& first.builder().current_payouts == payouts@[wallet]@
                &&& match first {
                    Construction::VisitDeprecated(turn) => {
                        &&& wallets@[wallet].deprecated@.len() > 0
                        &&& turn.keychain_id == wallets@[wallet].deprecated@[0]
                        &&& turn.agenda@.current == wallets@[wallet].current
                        &&& turn.agenda@.deprecated.len() == wallets@[wallet].deprecated@.len() - 1
                    },
                    Construction::VisitCurrent(turn) => {
                        &&& wallets@[wallet].deprecated@.len() == 0
                        &&& turn.keychain_id == wallets@[wallet].current
                    },
                    Construction::AllVisited(_) => false,
                }
            },
{
    let start = BuilderView {
        consolidate_deprecated_keychains: Some(consolidate),
        fee_rate: Some(rate),
        reserved_utxos: Some(lists_view(reserved@)),
        ..BuilderView::initial()
    };
    let (order, turns) = choose|order: Seq<WalletId>, turns: Seq<WalletTurn>|
        {
            &&& lists_once(order, payouts@.dom())
            &&& #[trigger] are_turns(turns, order, wallets@, payouts@)
            &&& first.takes_next_wallet(start, turns)
        };
    if turns.len() == 0 {
        assert(order.to_set() =~= Set::<WalletId>::empty());
    } else {
        let wallet = order[0];
        assert(turns[0] == (wallets@[wallet], payouts@[wallet]));
        assert(order.to_set().contains(wallet));
        assert(payouts@.contains_key(wallet));
    }
}

/// Every wallet with payouts has one turn in the construction, with all of its keychains
/// and payouts: the first has it now, the others wait.
pub proof fn law_all_wallets_have_turns(
    consolidate: bool,
    rate: FeeRate,
    reserved: HashMap<KeychainId, Vec<OutPoint>>,
    payouts: HashMap<WalletId, Vec<TxPayout>>,
    wallets: HashMap<WalletId, WalletKeychains>,
    first: Construction,
    agenda: AgendaView,
) -> (order: Seq<WalletId>)
    requires
        call_ensures(
            PsbtBuilder::<InitialPsbtBuilderState>::construct_psbt,
            (consolidate, rate, reserved, payouts, wallets),
            first,
        ),
        match first {
            Construction::VisitDeprecated(turn) => agenda == turn.agenda@,
            Construction::VisitCurrent(turn) => agenda == turn.agenda@,
            Construction::AllVisited(_) => false,
        },
    ensures
        forall|wallet: WalletId| #[trigger]
            payouts@.contains_key(wallet) <==> order.contains(wallet),
        forall|i: int, j: int|
            0 <= i < j < order.len() ==> #[trigger] order[i] != #[trigger] order[j],
        first.builder().current_wallet == Some(wallets@[order[0]].id),
        first.builder().current_payouts == payouts@[order[0]]@,
        agenda.wallets.len() == order.len() - 1,
        forall|i: int|
            0 <= i < agenda.wallets.len() ==> {
                &&& (#[trigger] agenda.wallets[i]).0 == wallets@[order[i + 1]]
                &&& agenda.wallets[i].1 == payouts@[order[i + 1]]
            },
{
    let start = BuilderView {
        consolidate_deprecated_keychains: Some(consolidate),
        fee_rate: Some(rate),
        reserved_utxos: Some(lists_view(reserved@)),
        ..BuilderView::initial()
    };
    let (order, turns) = choose|order: Seq<WalletId>, turns: Seq<WalletTurn>|
        {
            &&& lists_once(order, payouts@.dom())
            &&& #[trigger] are_turns(turns, order, wallets@, payouts@)
            &&& first.takes_next_wallet(start, turns)
        };
    assert forall|wallet: WalletId| #[trigger]
        payouts@.contains_key(wallet) <==> order.contains(wallet) by {
        assert(order.to_set().contains(wallet) <==> payouts@.dom().contains(wallet));
    }
    assert(turns[0] == (wallets@[order[0]], payouts@[order[0]]));
    assert forall|i: int| 0 <= i < agenda.wallets.len() implies {
        &&& (#[trigger] agenda.wallets[i]).0 == wallets@[order[i + 1]]
        &&& agenda.wallets[i].1 == payouts@[order[i + 1]]
    } by {
        assert(agenda.wallets[i] == turns[i + 1]);
    }
    order
}

} // verus!
