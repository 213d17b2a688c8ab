//! The order in which the keychains of several wallets are visited to build one
//! transaction.

use std::collections::HashMap;

use bdk::FeeRate;
use vstd::prelude::*;

use crate::builder::{AcceptingCurrentKeychainState, AcceptingDeprecatedKeychainState};
use crate::builder::{AcceptingWalletState, InitialPsbtBuilderState, PsbtBuilder};
use crate::builder_model::BuilderView;
use crate::placement::{keys_of, lists_once, lists_view};
use crate::primitives::{KeychainId, OutPoint, WalletId};
use crate::psbt::TxPayout;

verus! {

broadcast use vstd::std_specs::hash::group_hash_axioms;

/// The keychains of a wallet.
pub struct WalletKeychains {
    pub id: WalletId,
    /// The keychains that are no longer used.
    pub deprecated: Vec<KeychainId>,
    /// The keychain that is used.
    pub current: KeychainId,
}

/// A wallet and the payouts that it has to make.
pub type WalletTurn = (WalletKeychains, Vec<TxPayout>);

/// How the construction of a transaction goes on.
pub enum Construction {
    /// Visit a deprecated keychain.
    VisitDeprecated(DeprecatedTurn),
    /// Visit the current keychain of a wallet.
    VisitCurrent(CurrentTurn),
    /// All wallets were visited: the build can be finished.
    AllVisited(PsbtBuilder<AcceptingWalletState>),
}

/// A deprecated keychain to visit.
pub struct DeprecatedTurn {
    pub builder: PsbtBuilder<AcceptingDeprecatedKeychainState>,
    pub keychain_id: KeychainId,
    /// What comes after the visit.
    pub agenda: Agenda,
}

/// A current keychain to visit.
pub struct CurrentTurn {
    pub builder: PsbtBuilder<AcceptingCurrentKeychainState>,
    pub keychain_id: KeychainId,
    /// What comes after the visit.
    pub agenda: Agenda,
}

/// The keychains that are still to be visited.
pub struct Agenda {
    deprecated: Vec<KeychainId>,
    current: KeychainId,
    wallets: Vec<WalletTurn>,
}

/// The contents of an [`Agenda`].
#[verifier::ext_equal]
pub struct AgendaView {
    /// The deprecated keychains of the current wallet.
    pub deprecated: Seq<KeychainId>,
    /// The current keychain of the current wallet.
    pub current: KeychainId,
    /// The wallets after the current one.
    pub wallets: Seq<WalletTurn>,
}

impl View for Agenda {
    type V = AgendaView;

    closed spec fn view(&self) -> AgendaView {
        AgendaView {
            deprecated: self.deprecated@,
            current: self.current,
            wallets: self.wallets@,
        }
    }
}

impl Construction {
    /// Is the next keychain of the current wallet visited now, the first of
    /// `agenda`, with the builder in state `builder`?
    pub open spec fn visits_next(self, builder: BuilderView, agenda: AgendaView) -> bool {
        match self {
            Construction::VisitDeprecated(turn) => {
                &&& agenda.deprecated.len() > 0
                &&& turn.builder@ == builder
                &&& turn.keychain_id == agenda.deprecated[0]
                &&& turn.agenda@ == (AgendaView {
                    deprecated: agenda.deprecated.skip(1),
                    ..agenda
                })
            },
            Construction::VisitCurrent(turn) => {
                &&& agenda.deprecated.len() == 0
                &&& turn.builder@ == builder
                &&& turn.keychain_id == agenda.current
                &&& turn.agenda@ == agenda
            },
            Construction::AllVisited(_) => false,
        }
    }

    /// Does the first of `wallets` have its turn now, or is the build complete if
    /// there is none?
    pub open spec fn takes_next_wallet(
        self,
        builder: BuilderView,
        wallets: Seq<WalletTurn>,
    ) -> bool {
        if wallets.len() == 0 {
            self matches Construction::AllVisited(done) && done@ == builder.between_wallets()
        } else {
            let (wallet, payouts) = wallets[0];
            self.visits_next(
                builder.for_wallet(wallet.id, payouts@),
                AgendaView {
                    deprecated: wallet.deprecated@,
                    current: wallet.current,
                    wallets: wallets.skip(1),
                },
            )
        }
    }

    /// The state of the builder.
    pub open spec fn builder(self) -> BuilderView {
        match self {
            Construction::VisitDeprecated(turn) => turn.builder@,
            Construction::VisitCurrent(turn) => turn.builder@,
            Construction::AllVisited(done) => done@,
        }
    }
}

/// Are `turns` the wallets of `order`, each with its payouts?
pub open spec fn are_turns(
    turns: Seq<WalletTurn>,
    order: Seq<WalletId>,
    wallets: Map<WalletId, WalletKeychains>,
    payouts: Map<WalletId, Vec<TxPayout>>,
) -> bool {
    &&& turns.len() == order.len()
    &&& forall|i: int|
        0 <= i < order.len() ==> #[trigger] turns[i] == (wallets[order[i]], payouts[order[i]])
}

/// Which wallet has its turn does not change what holds of a build.
pub proof fn lemma_turns_keep_well_formed(
    builder: BuilderView,
    wallet: WalletId,
    payouts: Seq<TxPayout>,
)
    requires
        builder.well_formed(),
    ensures
        builder.between_wallets().well_formed(),
        builder.for_wallet(wallet, payouts).well_formed(),
{
    assert(builder.between_wallets().book() == builder.book());
    assert(builder.for_wallet(wallet, payouts).book() == builder.book());
}

/// Visits the next keychain of the current wallet.
fn visit_next(
    builder: PsbtBuilder<AcceptingDeprecatedKeychainState>,
    agenda: Agenda,
) -> (res: Construction)
    ensures
        res.visits_next(builder@, agenda@),
{
    let mut agenda = agenda;
    if agenda.deprecated.len() > 0 {
        let keychain_id = agenda.deprecated.remove(0);
        Construction::VisitDeprecated(DeprecatedTurn { builder, keychain_id, agenda })
    } else {
        Construction::VisitCurrent(
            CurrentTurn {
                builder: builder.accept_current_keychain(),
                keychain_id: agenda.current,
                agenda,
            },
        )
    }
}

/// Gives the next wallet its turn.
fn take_next_wallet(
    builder: PsbtBuilder<AcceptingWalletState>,
    wallets: Vec<WalletTurn>,
) -> (res: Construction)
    requires
        builder@ == builder@.between_wallets(),
        wallets@.len() > 0 ==> builder@.current_wallet_psbts.len() == 0,
    ensures
        res.takes_next_wallet(builder@, wallets@),
{
    let mut rest = wallets;
    if rest.len() == 0 {
        return Construction::AllVisited(builder);
    }
    let (wallet, payouts) = rest.remove(0);
    let agenda = Agenda {
        deprecated: wallet.deprecated,
        current: wallet.current,
        wallets: rest,
    };
    assert(rest@ =~= wallets@.skip(1));
    visit_next(builder.wallet_payouts(wallet.id, payouts), agenda)
}

impl Agenda {
    /// A deprecated keychain was visited.
    pub fn deprecated_visited(
        self,
        builder: PsbtBuilder<AcceptingDeprecatedKeychainState>,
    ) -> (res: Construction)
        ensures
            res.visits_next(builder@, self@),
    {
        visit_next(builder, self)
    }

    /// The current keychain of a wallet was visited.
    pub fn current_visited(
        self,
        builder: PsbtBuilder<AcceptingCurrentKeychainState>,
    ) -> (res: Construction)
        requires
            self@.wallets.len() > 0 ==> builder@.current_wallet_psbts.len() == 0,
        ensures
            res.takes_next_wallet(builder@, self@.wallets),
            builder@.well_formed() ==> res.builder().well_formed(),
    {
        let res = take_next_wallet(builder.next_wallet(), self.wallets);
        proof {
            if builder@.well_formed() && self@.wallets.len() > 0 {
                let (wallet, payouts) = self@.wallets[0];
                lemma_turns_keep_well_formed(builder@, wallet.id, payouts@);
            }
        }
        res
    }

    /// Is there no wallet after the current one?
    pub fn is_last_wallet(&self) -> (res: bool)
        ensures
            res == (self@.wallets.len() == 0),
    {
        self.wallets.is_empty()
    }
}

impl PsbtBuilder<InitialPsbtBuilderState> {
    /// Constructs a transaction that makes `unbatched_payouts`. The wallets have
    /// their turn in the order in which the map of payouts is walked.
    pub fn construct_psbt(
        consolidate_deprecated_keychains: bool,
        fee_rate: FeeRate,
        reserved_utxos: HashMap<KeychainId, Vec<OutPoint>>,
        unbatched_payouts: HashMap<WalletId, Vec<TxPayout>>,
        wallets: HashMap<WalletId, WalletKeychains>,
    ) -> (res: Construction)
        requires
            unbatched_payouts@.dom().subset_of(wallets@.dom()),
        ensures
            exists|order: Seq<WalletId>, turns: Seq<WalletTurn>|
                {
                    &&& lists_once(order, unbatched_payouts@.dom())
                    &&& #[trigger] are_turns(turns, order, wallets@, unbatched_payouts@)
                    &&& res.takes_next_wallet(
                        BuilderView {
                            consolidate_deprecated_keychains: Some(
                                consolidate_deprecated_keychains,
                            ),
                            fee_rate: Some(fee_rate),
                            reserved_utxos: Some(lists_view(reserved_utxos@)),
                            ..BuilderView::initial()
                        },
                        turns,
                    )
                },
            res.builder().well_formed(),
    {
        let builder = PsbtBuilder::new()
            .consolidate_deprecated_keychains(consolidate_deprecated_keychains)
            .fee_rate(fee_rate)
            .reserved_utxos(reserved_utxos)
            .accept_wallets();
        let ghost start = BuilderView {
            consolidate_deprecated_keychains: Some(consolidate_deprecated_keychains),
            fee_rate: Some(fee_rate),
            reserved_utxos: Some(lists_view(reserved_utxos@)),
            ..BuilderView::initial()
        };
        assert(builder@ =~= start);
        assert(start.book() == BuilderView::initial().book());
        assert(start.well_formed());
        let order = keys_of(&unbatched_payouts);
        let mut payouts_left = unbatched_payouts;
        let mut wallets_left = wallets;
        let mut turns: Vec<WalletTurn> = Vec::new();
        for n in 0..order.len()
            invariant
                lists_once(order@, unbatched_payouts@.dom()),
                unbatched_payouts@.dom().subset_of(wallets@.dom()),
                turns@.len() == n,
                forall|i: int|
                    0 <= i < n ==> #[trigger] turns@[i] == (
                        wallets@[order@[i]],
                        unbatched_payouts@[order@[i]],
                    ),
                forall|i: int|
                    n <= i < order@.len() ==> {
                        &&& payouts_left@.contains_key(#[trigger] order@[i])
                        &&& payouts_left@[order@[i]] == unbatched_payouts@[order@[i]]
                        &&& wallets_left@.contains_key(order@[i])
                        &&& wallets_left@[order@[i]] == wallets@[order@[i]]
                    },
        {
            let wallet_id = order[n];
            assert(payouts_left@.contains_key(order@[n as int]));
            if let (Some(wallet), Some(payouts)) = (
                wallets_left.remove(&wallet_id),
                payouts_left.remove(&wallet_id),
            ) {
                turns.push((wallet, payouts));
            }
        }
        assert(are_turns(turns@, order@, wallets@, unbatched_payouts@));
        let res = take_next_wallet(builder, turns);
        proof {
            if turns@.len() > 0 {
                let (wallet, payouts) = turns@[0];
                lemma_turns_keep_well_formed(start, wallet.id, payouts@);
            }
        }
        res
    }
}

} // verus!
