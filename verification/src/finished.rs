//! A finished build: the transaction and what it means for each wallet.

use std::collections::{HashMap, HashSet};

use vstd::arithmetic::power::pow;
use vstd::prelude::*;

use crate::decimal::{decimal_product, decimal_quotient, divide, lemma_round_away_from_zero};
use crate::decimal::{multiply, round_away_from_zero, round_up, DecimalParts};
use crate::placement::{find_output, keys_of, lists_view, place_payouts, search_output};
use crate::placement::{lemma_placed_apart, lists_once, place_all, placeable};
use crate::primitives::{KeychainId, OutPoint, Satoshis, Txid, WalletId};
use crate::psbt::{Psbt, TxOut, TxPayout};
use crate::rounding::{is_held, is_held_shortened, lemma_held_is_not_negative, ties_to_even};
use crate::script::AddressInfo;

verus! {

broadcast use vstd::std_specs::hash::group_hash_axioms;

/// What the transaction means for one wallet.
pub struct WalletTotals {
    pub wallet_id: WalletId,
    pub change_keychain_id: KeychainId,
    pub keychains_with_inputs: Vec<KeychainId>,
    pub input_satoshis: Satoshis,
    pub output_satoshis: Satoshis,
    pub fee_satoshis: Satoshis,
    pub change_satoshis: Satoshis,
    pub change_address: AddressInfo,
    pub change_outpoint: Option<OutPoint>,
}

/// The contents of a [`WalletTotals`].
#[verifier::ext_equal]
pub struct WalletTotalsView {
    pub wallet_id: WalletId,
    pub change_keychain_id: KeychainId,
    pub keychains_with_inputs: Seq<KeychainId>,
    pub input_satoshis: int,
    pub output_satoshis: int,
    pub fee_satoshis: int,
    pub change_satoshis: int,
    pub change_address: AddressInfo,
    pub change_outpoint: Option<OutPoint>,
}

impl View for WalletTotals {
    type V = WalletTotalsView;

    open spec fn view(&self) -> WalletTotalsView {
        WalletTotalsView {
            wallet_id: self.wallet_id,
            change_keychain_id: self.change_keychain_id,
            keychains_with_inputs: self.keychains_with_inputs@,
            input_satoshis: self.input_satoshis@,
            output_satoshis: self.output_satoshis@,
            fee_satoshis: self.fee_satoshis@,
            change_satoshis: self.change_satoshis@,
            change_address: self.change_address,
            change_outpoint: self.change_outpoint,
        }
    }
}

/// A transaction that pays out of several wallets.
pub struct FinishedPsbtBuild {
    /// The payouts that the transaction makes for each wallet, each with the
    /// number of its output.
    pub included_payouts: HashMap<WalletId, Vec<(TxPayout, u32)>>,
    /// The outputs that the transaction spends of each keychain of each wallet.
    pub included_utxos: HashMap<WalletId, HashMap<KeychainId, Vec<OutPoint>>>,
    /// The wallet of each keychain that the transaction spends from.
    pub included_wallet_keychains: HashMap<KeychainId, WalletId>,
    pub wallet_totals: HashMap<WalletId, WalletTotals>,
    /// The fee of the whole transaction.
    pub fee_satoshis: Satoshis,
    pub tx_id: Option<Txid>,
    pub psbt: Option<Psbt>,
}

/// The contents of a map of totals.
pub open spec fn totals_view(totals: Map<WalletId, WalletTotals>) -> Map<
    WalletId,
    WalletTotalsView,
> {
    totals.map_values(|total: WalletTotals| total@)
}

/// The contents of a map of maps of lists.
pub open spec fn utxos_view(
    utxos: Map<WalletId, HashMap<KeychainId, Vec<OutPoint>>>,
) -> Map<WalletId, Map<KeychainId, Seq<OutPoint>>> {
    utxos.map_values(|of_wallet: HashMap<KeychainId, Vec<OutPoint>>| lists_view(of_wallet@))
}

/// The contents of a [`FinishedPsbtBuild`].
#[verifier::ext_equal]
pub struct FinishedView {
    pub included_payouts: Map<WalletId, Seq<(TxPayout, u32)>>,
    pub included_utxos: Map<WalletId, Map<KeychainId, Seq<OutPoint>>>,
    pub included_wallet_keychains: Map<KeychainId, WalletId>,
    pub wallet_totals: Map<WalletId, WalletTotalsView>,
    pub fee_satoshis: int,
    pub tx_id: Option<Txid>,
    pub psbt: Option<Psbt>,
}

impl View for FinishedPsbtBuild {
    type V = FinishedView;

    open spec fn view(&self) -> FinishedView {
        FinishedView {
            included_payouts: lists_view(self.included_payouts@),
            included_utxos: utxos_view(self.included_utxos@),
            included_wallet_keychains: self.included_wallet_keychains@,
            wallet_totals: totals_view(self.wallet_totals@),
            fee_satoshis: self.fee_satoshis@,
            tx_id: self.tx_id,
            psbt: self.psbt,
        }
    }
}

impl WalletTotalsView {
    /// Does what the wallet puts in pay for its payouts, its part of the fee and its
    /// change?
    pub open spec fn balances(self) -> bool {
        self.input_satoshis == self.output_satoshis + self.fee_satoshis + self.change_satoshis
    }
}

/// The output that brings a wallet its change.
pub open spec fn change_vout(outputs: Seq<TxOut>, total: WalletTotalsView) -> Option<usize> {
    find_output(
        outputs,
        Set::empty(),
        total.change_address.address.script(),
        total.change_satoshis,
        0,
    )
}

/// Does `vout` bring one of the wallets its change?
pub open spec fn is_change_vout(
    outputs: Seq<TxOut>,
    totals: Map<WalletId, WalletTotalsView>,
    vout: usize,
) -> bool {
    exists|wallet: WalletId| #[trigger]
        totals.contains_key(wallet) && totals[wallet].change_satoshis != 0 && change_vout(
            outputs,
            totals[wallet],
        ) == Some(vout)
}

/// The outputs that bring the wallets their change.
pub open spec fn change_vouts(
    outputs: Seq<TxOut>,
    totals: Map<WalletId, WalletTotalsView>,
) -> Set<usize> {
    Set::new(|vout: usize| is_change_vout(outputs, totals, vout))
}

/// Is there an output for the change of each wallet that has some?
pub open spec fn change_found(
    outputs: Seq<TxOut>,
    totals: Map<WalletId, WalletTotalsView>,
) -> bool {
    forall|wallet: WalletId| #[trigger]
        totals.contains_key(wallet) && totals[wallet].change_satoshis != 0 ==> change_vout(
            outputs,
            totals[wallet],
        ) is Some
}

/// The totals of a wallet with the output of its change noted, if it has some.
pub open spec fn with_change(
    outputs: Seq<TxOut>,
    txid: Txid,
    total: WalletTotalsView,
) -> WalletTotalsView {
    if total.change_satoshis == 0 {
        total
    } else {
        WalletTotalsView {
            change_outpoint: Some(
                OutPoint { txid, vout: change_vout(outputs, total)->0 as u32 },
            ),
            ..total
        }
    }
}

/// A list of payouts with their outputs noted.
pub open spec fn with_vouts(list: Seq<(TxPayout, u32)>, vouts: Seq<usize>) -> Seq<
    (TxPayout, u32),
> {
    Seq::new(list.len(), |i: int| (list[i].0, vouts[i] as u32))
}

/// Are `now` the totals `before` with every keychain of `spent` noted once, behind
/// those that were noted already?
pub open spec fn signers_noted(
    before: WalletTotalsView,
    spent: Map<KeychainId, Seq<OutPoint>>,
    now: WalletTotalsView,
) -> bool {
    exists|signers: Seq<KeychainId>| #[trigger]
        lists_once(signers, spent.dom()) && now == (WalletTotalsView {
            keychains_with_inputs: before.keychains_with_inputs + signers,
            ..before
        })
}

impl FinishedView {
    /// Is there a transaction?
    pub open spec fn has_transaction(self) -> bool {
        self.tx_id is Some && self.psbt is Some
    }

    /// The outputs of the transaction.
    pub open spec fn outputs(self) -> Seq<TxOut> {
        self.psbt->0.outputs@
    }

    /// The totals of `wallet` with the output of its change noted.
    pub open spec fn total_with_change(self, wallet: WalletId) -> WalletTotalsView {
        if self.has_transaction() {
            with_change(self.outputs(), self.tx_id->0, self.wallet_totals[wallet])
        } else {
            self.wallet_totals[wallet]
        }
    }

    /// Does the transaction, if there is one, have an output for all change and an
    /// output of its own for each payout?
    pub open spec fn outputs_accounted_for(self) -> bool {
        self.has_transaction() ==> {
            &&& change_found(self.outputs(), self.wallet_totals)
            &&& placeable(
                self.outputs(),
                self.included_payouts,
                change_vouts(self.outputs(), self.wallet_totals),
            )
        }
    }

    /// Has each wallet that the transaction spends from its totals?
    pub open spec fn totals_cover_utxos(self) -> bool {
        self.included_utxos.dom().subset_of(self.wallet_totals.dom())
    }

    /// Do the totals of each wallet balance, and are they noted under its id?
    pub open spec fn totals_balance(self) -> bool {
        forall|wallet: WalletId| #[trigger]
            self.wallet_totals.contains_key(wallet) ==> self.wallet_totals[wallet].balances()
                && self.wallet_totals[wallet].wallet_id == wallet
    }

    /// Do the payouts of `done` have the outputs that they get when the wallets
    /// have their turn in the order `order`?
    pub open spec fn vouts_noted(self, order: Seq<WalletId>, done: FinishedView) -> bool {
        &&& lists_once(order, self.included_payouts.dom())
        &&& done.included_payouts.dom() == self.included_payouts.dom()
        &&& place_all(
            self.outputs(),
            self.included_payouts,
            order,
            order.len(),
            change_vouts(self.outputs(), self.wallet_totals),
        ) matches Some(all) && forall|wallet: WalletId| #[trigger]
            self.included_payouts.contains_key(wallet) ==> done.included_payouts[wallet]
                == with_vouts(self.included_payouts[wallet], all.0[wallet])
    }

    /// Is `done` what this build comes to when the outputs and the signers are
    /// noted?
    pub open spec fn finishes_to(self, done: FinishedView) -> bool {
        &&& done.included_utxos == self.included_utxos
        &&& done.included_wallet_keychains == self.included_wallet_keychains
        &&& done.fee_satoshis == self.fee_satoshis
        &&& done.tx_id == self.tx_id
        &&& done.psbt == self.psbt
        &&& done.wallet_totals.dom() == self.wallet_totals.dom()
        &&& forall|wallet: WalletId| #[trigger]
            self.wallet_totals.contains_key(wallet) ==> if self.included_utxos.contains_key(
                wallet,
            ) {
                signers_noted(
                    self.total_with_change(wallet),
                    self.included_utxos[wallet],
                    done.wallet_totals[wallet],
                )
            } else {
                done.wallet_totals[wallet] == self.total_with_change(wallet)
            }
        &&& if self.has_transaction() {
            exists|order: Seq<WalletId>| #[trigger] self.vouts_noted(order, done)
        } else {
            done.included_payouts == self.included_payouts
        }
    }
}

/// The output of each wallet's change, and all of them together, where there is
/// one for each wallet that has change.
fn find_change(totals: &HashMap<WalletId, WalletTotals>, outputs: &Vec<TxOut>) -> (res: Option<
    (HashMap<WalletId, usize>, HashSet<usize>),
>)
    ensures
        res is Some <==> change_found(outputs@, totals_view(totals@)),
        res matches Some((of_wallet, taken)) ==> {
            &&& taken@ == change_vouts(outputs@, totals_view(totals@))
            &&& forall|wallet: WalletId| #[trigger]
                of_wallet@.contains_key(wallet) <==> totals@.contains_key(wallet)
                    && totals@[wallet]@.change_satoshis != 0
            &&& forall|wallet: WalletId| #[trigger]
                of_wallet@.contains_key(wallet) ==> change_vout(outputs@, totals@[wallet]@) == Some(
                    of_wallet@[wallet],
                )
        },
{
    let order = keys_of(totals);
    let ghost view = totals_view(totals@);
    let nothing: HashSet<usize> = HashSet::new();
    let mut of_wallet: HashMap<WalletId, usize> = HashMap::new();
    let mut taken: HashSet<usize> = HashSet::new();
    for n in 0..order.len()
        invariant
            view == totals_view(totals@),
            lists_once(order@, totals@.dom()),
            nothing@ == Set::<usize>::empty(),
            forall|vout: usize| #[trigger]
                taken@.contains(vout) <==> exists|k: int|
                    0 <= k < n && view[#[trigger] order@[k]].change_satoshis != 0 && change_vout(
                        outputs@,
                        view[order@[k]],
                    ) == Some(vout),
            forall|wallet: WalletId| #[trigger]
                of_wallet@.contains_key(wallet) <==> order@.take(n as int).contains(wallet)
                    && view[wallet].change_satoshis != 0,
            forall|wallet: WalletId| #[trigger]
                of_wallet@.contains_key(wallet) ==> change_vout(outputs@, view[wallet]) == Some(
                    of_wallet@[wallet],
                ),
    {
        let wallet = order[n];
        assert(order@.to_set().contains(wallet));
        assert(view[wallet] == totals@[wallet]@);
        assert(order@.take(n + 1) =~= order@.take(n as int).push(wallet));
        assert forall|w: WalletId| #[trigger]
            order@.take(n + 1).contains(w) <==> order@.take(n as int).contains(w) || w == wallet by {
            if order@.take(n as int).contains(w) {
                let k = choose|k: int|
                    0 <= k < order@.take(n as int).len() && order@.take(n as int)[k] == w;
                assert(order@.take(n + 1)[k] == w);
            }
            if w == wallet {
                assert(order@.take(n + 1)[n as int] == w);
            }
        }
        let total = match totals.get(&wallet) {
            Some(total) => total,
            None => {
                assert(false);
                return None;
            },
        };
        if !total.change_satoshis.same(Satoshis::zero()) {
            let script = total.change_address.address.script_pubkey();
            match search_output(outputs, &nothing, &script, total.change_satoshis) {
                Some(vout) => {
                    of_wallet.insert(wallet, vout);
                    taken.insert(vout);
                },
                None => {
                    assert(view.contains_key(wallet));
                    return None;
                },
            }
        }
    }
    proof {
        assert(order@.take(order@.len() as int) =~= order@);
        assert forall|wallet: WalletId| #[trigger] view.contains_key(wallet) implies order@.contains(
            wallet,
        ) by {
            assert(order@.to_set().contains(wallet));
        }
        assert forall|wallet: WalletId| #[trigger] order@.contains(wallet) implies view.contains_key(
            wallet,
        ) by {
            assert(order@.to_set().contains(wallet));
        }
        assert(taken@ =~= change_vouts(outputs@, view)) by {
            assert forall|vout: usize| #[trigger] taken@.contains(vout) implies is_change_vout(
                outputs@,
                view,
                vout,
            ) by {
                let k = choose|k: int|
                    0 <= k < order@.len() && view[#[trigger] order@[k]].change_satoshis != 0
                        && change_vout(outputs@, view[order@[k]]) == Some(vout);
                assert(order@.contains(order@[k]));
                assert(view.contains_key(order@[k]));
            }
            assert forall|vout: usize| is_change_vout(outputs@, view, vout) implies #[trigger] taken@.contains(
                vout,
            ) by {
                let wallet = choose|wallet: WalletId| #[trigger]
                    view.contains_key(wallet) && view[wallet].change_satoshis != 0 && change_vout(
                        outputs@,
                        view[wallet],
                    ) == Some(vout);
                assert(order@.contains(wallet));
                let k = choose|k: int| 0 <= k < order@.len() && order@[k] == wallet;
                assert(view[order@[k]].change_satoshis != 0);
            }
        }
        assert forall|wallet: WalletId| #[trigger]
            view.contains_key(wallet) && view[wallet].change_satoshis != 0 implies change_vout(
            outputs@,
            view[wallet],
        ) is Some by {
            assert(of_wallet@.contains_key(wallet));
        }
    }
    Some((of_wallet, taken))
}

/// Notes the output of each wallet's change.
fn note_change(
    totals: &mut HashMap<WalletId, WalletTotals>,
    txid: Txid,
    of_wallet: &HashMap<WalletId, usize>,
)
    requires
        of_wallet@.dom().subset_of(old(totals)@.dom()),
    ensures
        final(totals)@.dom() == old(totals)@.dom(),
        forall|wallet: WalletId| #[trigger]
            old(totals)@.contains_key(wallet) ==> final(totals)@[wallet]@ == if of_wallet@.contains_key(
                wallet,
            ) {
                WalletTotalsView {
                    change_outpoint: Some(
                        OutPoint { txid, vout: of_wallet@[wallet] as u32 },
                    ),
                    ..old(totals)@[wallet]@
                }
            } else {
                old(totals)@[wallet]@
            },
{
    let order = keys_of(of_wallet);
    for n in 0..order.len()
        invariant
            lists_once(order@, of_wallet@.dom()),
            of_wallet@.dom().subset_of(old(totals)@.dom()),
            totals@.dom() == old(totals)@.dom(),
            forall|wallet: WalletId| #[trigger]
                old(totals)@.contains_key(wallet) ==> totals@[wallet]@ == if order@.take(
                    n as int,
                ).contains(wallet) {
                    WalletTotalsView {
                        change_outpoint: Some(
                            OutPoint { txid, vout: of_wallet@[wallet] as u32 },
                        ),
                        ..old(totals)@[wallet]@
                    }
                } else {
                    old(totals)@[wallet]@
                },
    {
        let wallet = order[n];
        proof {
            assert(order@.to_set().contains(wallet));
            lemma_take_next(order@, n as int);
        }
        let vout = match of_wallet.get(&wallet) {
            Some(vout) => *vout,
            None => {
                assert(false);
                return;
            },
        };
        if let Some(mut total) = totals.remove(&wallet) {
            total.change_outpoint = Some(OutPoint { txid, vout: vout as u32 });
            totals.insert(wallet, total);
        }
        assert(totals@.dom() =~= old(totals)@.dom());
    }
    proof {
        lemma_lists_all(order@, of_wallet@.dom());
    }
}

/// What the first members of a list are, one step further.
proof fn lemma_take_next(order: Seq<u128>, n: int)
    requires
        0 <= n < order.len(),
        order.no_duplicates(),
    ensures
        !order.take(n).contains(order[n]),
        forall|x: u128| #[trigger]
            order.take(n + 1).contains(x) <==> order.take(n).contains(x) || x == order[n],
{
    let now = order.take(n);
    let then = order.take(n + 1);
    assert(then =~= now.push(order[n]));
    assert forall|x: u128| #[trigger] then.contains(x) <==> now.contains(x) || x == order[n] by {
        if now.contains(x) {
            let k = choose|k: int| 0 <= k < now.len() && now[k] == x;
            assert(then[k] == x);
        }
        if x == order[n] {
            assert(then[n] == x);
        }
    }
}

proof fn lemma_lists_all(order: Seq<u128>, members: Set<u128>)
    requires
        lists_once(order, members),
    ensures
        forall|x: u128| #[trigger]
            order.take(order.len() as int).contains(x) <==> members.contains(x),
{
    assert(order.take(order.len() as int) =~= order);
    assert forall|x: u128| #[trigger] order.contains(x) <==> members.contains(x) by {
        assert(order.to_set().contains(x) <==> members.contains(x));
    }
}

/// Notes the outputs of one wallet's payouts.
fn note_vouts_of_wallet(list: &mut Vec<(TxPayout, u32)>, vouts: &Vec<usize>)
    requires
        vouts@.len() == old(list)@.len(),
    ensures
        final(list)@ == with_vouts(old(list)@, vouts@),
{
    for i in 0..vouts.len()
        invariant
            vouts@.len() == old(list)@.len(),
            list@.len() == old(list)@.len(),
            forall|j: int|
                0 <= j < list@.len() ==> #[trigger] list@[j] == if j < i {
                    (old(list)@[j].0, vouts@[j] as u32)
                } else {
                    old(list)@[j]
                },
    {
        list[i].1 = vouts[i] as u32;
    }
    assert(list@ =~= with_vouts(old(list)@, vouts@));
}

/// Notes the outputs of all payouts.
fn note_vouts(
    payouts: &mut HashMap<WalletId, Vec<(TxPayout, u32)>>,
    placed: &HashMap<WalletId, Vec<usize>>,
)
    requires
        placed@.dom() == old(payouts)@.dom(),
        forall|wallet: WalletId| #[trigger]
            placed@.contains_key(wallet) ==> placed@[wallet]@.len() == old(
                payouts,
            )@[wallet]@.len(),
    ensures
        final(payouts)@.dom() == old(payouts)@.dom(),
        forall|wallet: WalletId| #[trigger]
            old(payouts)@.contains_key(wallet) ==> final(payouts)@[wallet]@ == with_vouts(
                old(payouts)@[wallet]@,
                placed@[wallet]@,
            ),
{
    let order = keys_of(placed);
    for n in 0..order.len()
        invariant
            lists_once(order@, placed@.dom()),
            placed@.dom() == old(payouts)@.dom(),
            forall|wallet: WalletId| #[trigger]
                placed@.contains_key(wallet) ==> placed@[wallet]@.len() == old(
                    payouts,
                )@[wallet]@.len(),
            payouts@.dom() == old(payouts)@.dom(),
            forall|wallet: WalletId| #[trigger]
                old(payouts)@.contains_key(wallet) ==> payouts@[wallet]@ == if order@.take(
                    n as int,
                ).contains(wallet) {
                    with_vouts(old(payouts)@[wallet]@, placed@[wallet]@)
                } else {
                    old(payouts)@[wallet]@
                },
    {
        let wallet = order[n];
        proof {
            assert(order@.to_set().contains(wallet));
            lemma_take_next(order@, n as int);
        }
        let vouts = match placed.get(&wallet) {
            Some(vouts) => vouts,
            None => {
                assert(false);
                return;
            },
        };
        if let Some(mut list) = payouts.remove(&wallet) {
            note_vouts_of_wallet(&mut list, vouts);
            payouts.insert(wallet, list);
        }
        assert(payouts@.dom() =~= old(payouts)@.dom());
    }
    proof {
        lemma_lists_all(order@, placed@.dom());
    }
}

/// Notes the keychains that have to sign.
fn note_signers(
    totals: &mut HashMap<WalletId, WalletTotals>,
    utxos: &HashMap<WalletId, HashMap<KeychainId, Vec<OutPoint>>>,
)
    requires
        utxos@.dom().subset_of(old(totals)@.dom()),
    ensures
        final(totals)@.dom() == old(totals)@.dom(),
        forall|wallet: WalletId| #[trigger]
            old(totals)@.contains_key(wallet) ==> if utxos@.contains_key(wallet) {
                signers_noted(
                    old(totals)@[wallet]@,
                    lists_view(utxos@[wallet]@),
                    final(totals)@[wallet]@,
                )
            } else {
                final(totals)@[wallet]@ == old(totals)@[wallet]@
            },
{
    let order = keys_of(utxos);
    for n in 0..order.len()
        invariant
            lists_once(order@, utxos@.dom()),
            utxos@.dom().subset_of(old(totals)@.dom()),
            totals@.dom() == old(totals)@.dom(),
            forall|wallet: WalletId| #[trigger]
                old(totals)@.contains_key(wallet) ==> if order@.take(n as int).contains(wallet) {
                    signers_noted(
                        old(totals)@[wallet]@,
                        lists_view(utxos@[wallet]@),
                        totals@[wallet]@,
                    )
                } else {
                    totals@[wallet]@ == old(totals)@[wallet]@
                },
    {
        let wallet = order[n];
        let ghost before = totals@;
        proof {
            assert(order@.to_set().contains(wallet));
            lemma_take_next(order@, n as int);
        }
        let spent = match utxos.get(&wallet) {
            Some(spent) => spent,
            None => {
                assert(false);
                return;
            },
        };
        let mut signers = keys_of(spent);
        assert(lists_view(spent@).dom() =~= spent@.dom());
        assert(lists_once(signers@, lists_view(spent@).dom()));
        if let Some(mut total) = totals.remove(&wallet) {
            total.keychains_with_inputs.append(&mut signers);
            totals.insert(wallet, total);
            assert(signers_noted(
                old(totals)@[wallet]@,
                lists_view(utxos@[wallet]@),
                totals@[wallet]@,
            ));
        }
        assert(totals@.dom() =~= old(totals)@.dom());
    }
    proof {
        lemma_lists_all(order@, utxos@.dom());
    }
}

/// The part of a wallet's fee that falls to a payout, by its part of what the
/// wallet pays out; `None` where the product overflows.
pub open spec fn fee_share(total: WalletTotalsView, payout_amount: int) -> Option<int> {
    let (mantissa, scale) = decimal_quotient(payout_amount, total.output_satoshis);
    match decimal_product(total.fee_satoshis, mantissa, scale) {
        Some((mantissa, scale)) => Some(round_away_from_zero(mantissa, scale)),
        None => None,
    }
}

/// Is the payout a part of what the wallet pays out, and the fee no gain?
pub open spec fn is_ordinary_share(total: WalletTotalsView, payout_amount: int) -> bool {
    0 <= payout_amount <= total.output_satoshis && 0 <= total.fee_satoshis
}

/// Are the steps to the part of a fee that falls to a payout rounded as little as
/// can be? This is about payouts and fees that are not negative.
pub open spec fn share_well_rounded(total: WalletTotalsView, payout_amount: int) -> bool {
    let output = total.output_satoshis;
    let fee = total.fee_satoshis;
    let (mantissa, scale) = decimal_quotient(payout_amount, output);
    0 <= payout_amount && 0 < output && 0 <= fee ==> {
        &&& 0 <= mantissa
        &&& is_held_shortened(payout_amount, output, mantissa, scale)
        &&& decimal_product(fee, mantissa, scale) matches Some((product, digits)) ==> {
            &&& is_held(fee * mantissa, pow(10, scale), product, digits)
            &&& ties_to_even(fee * mantissa, pow(10, scale), product, digits)
        }
    }
}

/// Is `share` the part of the wallet's fee that falls to a payout?
pub open spec fn is_fee_share(total: WalletTotalsView, payout_amount: int, share: int) -> bool {
    fee_share(total, payout_amount) == Some(share) && share_well_rounded(total, payout_amount)
}

/// Why a part of a fee cannot be told.
#[derive(Debug, Clone, Copy, PartialEq, Eq, Structural)]
pub enum FeeShareError {
    /// The wallet pays nothing out.
    NoOutput,
    /// The part is too large a number.
    Overflow,
}

/// A fee as whole satoshis, rounded away from zero.
pub fn whole_fee(fee: DecimalParts) -> (res: Satoshis)
    requires
        fee.valid(),
    ensures
        res@ == round_away_from_zero(fee.mantissa as int, fee.scale as nat),
{
    let rounded = round_up(fee);
    proof {
        lemma_round_away_from_zero(fee.mantissa as int, fee.scale as nat, 0);
    }
    match Satoshis::try_new(rounded) {
        Some(sats) => sats,
        None => {
            assert(false);
            Satoshis::zero()
        },
    }
}

/// The exact part of a wallet's fee that falls to a payout, before rounding.
fn exact_fee_share(total: &WalletTotals, payout_amount: Satoshis) -> (res: Option<DecimalParts>)
    requires
        total@.output_satoshis != 0,
    ensures
        match res {
            Some(share) => share.valid() && fee_share(total@, payout_amount@) == Some(
                round_away_from_zero(share.mantissa as int, share.scale as nat),
            ),
            None => fee_share(total@, payout_amount@) is None,
        },
        share_well_rounded(total@, payout_amount@),
        payout_amount@ == 0 ==> fee_share(total@, payout_amount@) == Some(0int),
        payout_amount@ == total@.output_satoshis ==> fee_share(total@, payout_amount@) == Some(
            total@.fee_satoshis,
        ),
        is_ordinary_share(total@, payout_amount@) ==> (fee_share(
            total@,
            payout_amount@,
        ) matches Some(share) && 0 <= share <= total@.fee_satoshis),
{
    let payout = payout_amount.into_inner();
    let output = total.output_satoshis.into_inner();
    let fee = total.fee_satoshis.into_inner();
    let proportion = divide(payout, output);
    let share = multiply(fee, proportion);
    proof {
        if 0 <= payout && 0 < output {
            lemma_held_is_not_negative(
                payout as int,
                output as int,
                proportion.mantissa as int,
                proportion.scale as nat,
            );
        }
        if payout == 0 || payout == output {
            assert(payout as int % output as int == 0) by (nonlinear_arith)
                requires
                    payout == 0 || payout == output,
                    output != 0,
            ;
            let m = proportion.mantissa as int;
            assert(m == if payout == 0 { 0int } else { 1int }) by (nonlinear_arith)
                requires
                    payout == 0 || payout == output,
                    output != 0,
                    m * output == payout,
            ;
            assert(fee * m == if payout == 0 { 0int } else { fee as int }) by (nonlinear_arith)
                requires
                    m == if payout == 0 { 0int } else { 1int },
            ;
        }
        if let Some(product) = share {
            lemma_round_away_from_zero(
                product.mantissa as int,
                product.scale as nat,
                fee as int,
            );
        }
    }
    share
}

impl FinishedPsbtBuild {
    /// The part of the fee of wallet `wallet_id` that falls to a payout of the given
    /// amount, in whole satoshis, rounded up; `None` if the transaction does not
    /// involve the wallet.
    pub fn proportional_fee(
        &self,
        wallet_id: &WalletId,
        payout_amount: Satoshis,
    ) -> (res: Option<Satoshis>)
        requires
            self@.wallet_totals.contains_key(*wallet_id) ==> {
                &&& self@.wallet_totals[*wallet_id].output_satoshis != 0
                &&& fee_share(self@.wallet_totals[*wallet_id], payout_amount@) is Some
            },
        ensures
            res is Some <==> self@.wallet_totals.contains_key(*wallet_id),
            res matches Some(fee) ==> {
                let total = self@.wallet_totals[*wallet_id];
                &&& is_fee_share(total, payout_amount@, fee@)
                &&& payout_amount@ == 0 ==> fee@ == 0
                &&& payout_amount@ == total.output_satoshis ==> fee@ == total.fee_satoshis
                &&& is_ordinary_share(total, payout_amount@) ==> 0 <= fee@ <= total.fee_satoshis
            },
    {
        match self.wallet_totals.get(wallet_id) {
            Some(total) => match exact_fee_share(total, payout_amount) {
                Some(share) => Some(whole_fee(share)),
                None => {
                    assert(false);
                    None
                },
            },
            None => None,
        }
    }

    /// As [`FinishedPsbtBuild::proportional_fee`], for any amount and whatever the
    /// wallet pays out.
    pub fn checked_proportional_fee(
        &self,
        wallet_id: &WalletId,
        payout_amount: Satoshis,
    ) -> (res: Result<Option<Satoshis>, FeeShareError>)
        ensures
            !self@.wallet_totals.contains_key(*wallet_id) ==> res == Ok::<_, FeeShareError>(
                None::<Satoshis>,
            ),
            self@.wallet_totals.contains_key(*wallet_id) ==> {
                let total = self@.wallet_totals[*wallet_id];
                let share = fee_share(total, payout_amount@);
                match res {
                    Ok(Some(fee)) => {
                        &&& total.output_satoshis != 0
                        &&& is_fee_share(total, payout_amount@, fee@)
                        &&& payout_amount@ == 0 ==> fee@ == 0
                        &&& payout_amount@ == total.output_satoshis ==> fee@
                            == total.fee_satoshis
                        &&& is_ordinary_share(total, payout_amount@) ==> 0 <= fee@
                            <= total.fee_satoshis
                    },
                    Ok(None) => false,
                    Err(FeeShareError::NoOutput) => total.output_satoshis == 0,
                    Err(FeeShareError::Overflow) => total.output_satoshis != 0 && share is None
                        && !is_ordinary_share(total, payout_amount@),
                }
            },
    {
        if let Some(total) = self.wallet_totals.get(wallet_id) {
            if total.output_satoshis.same(Satoshis::zero()) {
                return Err(FeeShareError::NoOutput);
            }
            if exact_fee_share(total, payout_amount).is_none() {
                return Err(FeeShareError::Overflow);
            }
        }
        Ok(self.proportional_fee(wallet_id, payout_amount))
    }

    /// Does the transaction, if there is one, have an output for all change and an
    /// output of its own for each payout?
    pub fn outputs_accounted_for(&self) -> (res: bool)
        ensures
            res == self@.outputs_accounted_for(),
    {
        match (&self.tx_id, &self.psbt) {
            (Some(_), Some(psbt)) => match find_change(&self.wallet_totals, &psbt.outputs) {
                Some((_, taken)) => place_payouts(
                    &psbt.outputs,
                    &self.included_payouts,
                    taken,
                ).is_some(),
                None => false,
            },
            _ => true,
        }
    }

    /// Notes which outputs bring the change and the payouts, and which keychains
    /// have to sign.
    pub fn settle(self) -> (res: Self)
        requires
            self@.outputs_accounted_for(),
            self@.totals_cover_utxos(),
        ensures
            self@.finishes_to(res@),
    {
        let mut done = self;
        let ghost before = self@;
        assert(before.wallet_totals.dom() =~= self.wallet_totals@.dom());
        assert(before.included_payouts.dom() =~= self.included_payouts@.dom());
        assert(before.included_utxos.dom() =~= self.included_utxos@.dom());
        let ghost mut walked: Seq<WalletId> = Seq::empty();
        if let (Some(tx_id), Some(psbt)) = (&done.tx_id, &done.psbt) {
            if let Some((of_wallet, taken)) = find_change(&done.wallet_totals, &psbt.outputs) {
                note_change(&mut done.wallet_totals, *tx_id, &of_wallet);
                let ghost avoided = taken@;
                if let Some(placed) = place_payouts(&psbt.outputs, &done.included_payouts, taken) {
                    proof {
                        walked = choose|order: Seq<WalletId>|
                            {
                                &&& #[trigger] lists_once(order, done.included_payouts@.dom())
                                &&& place_all(
                                    psbt.outputs@,
                                    lists_view(done.included_payouts@),
                                    order,
                                    order.len(),
                                    avoided,
                                ) matches Some(all) && all.0 == lists_view(placed@)
                            };
                        assert(psbt.outputs.len() <= usize::MAX);
                        lemma_placed_apart(
                            psbt.outputs@,
                            before.included_payouts,
                            walked,
                            avoided,
                        );
                        assert(lists_view(placed@).dom() =~= placed@.dom());
                    }
                    note_vouts(&mut done.included_payouts, &placed);
                    assert(lists_view(done.included_payouts@).dom()
                        =~= done.included_payouts@.dom());
                }
            }
        }
        proof {
            assert forall|wallet: WalletId| #[trigger]
                before.wallet_totals.contains_key(wallet) implies done.wallet_totals@[wallet]@
                == before.total_with_change(wallet) by {
                assert(self.wallet_totals@.contains_key(wallet));
            }
        }
        note_signers(&mut done.wallet_totals, &done.included_utxos);
        proof {
            assert(done@.wallet_totals.dom() =~= done.wallet_totals@.dom());
            if before.has_transaction() {
                assert(before.vouts_noted(walked, done@));
            }
            assert(before.finishes_to(done@));
        }
        done
    }
}

} // verus!
