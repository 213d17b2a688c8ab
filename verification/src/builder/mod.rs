//! Building one transaction that makes payouts of several wallets, one wallet
//! after the other.

pub mod current;
pub mod deprecated;
mod plans;

use std::collections::HashMap;
use std::marker::PhantomData;

use bdk::FeeRate;
use vstd::prelude::*;

use crate::builder_model::BuilderView;
use crate::finished::FinishedPsbtBuild;
use crate::outpoints::OutPointMap;
use crate::placement::lists_view;
use crate::primitives::{KeychainId, OutPoint, Satoshis, WalletId};
use crate::psbt::{Psbt, TxPayout};
use crate::utxo_book::UtxoBook;

verus! {

broadcast use vstd::std_specs::hash::group_hash_axioms;

/// The builder is being configured.
pub struct InitialPsbtBuilderState;

/// The builder waits for the next wallet.
pub struct AcceptingWalletState;

/// The builder waits for the deprecated keychains of a wallet.
pub struct AcceptingDeprecatedKeychainState;

/// The builder waits for the current keychain of a wallet.
pub struct AcceptingCurrentKeychainState;

/// Builds a transaction. `T` tells what the builder waits for.
pub struct PsbtBuilder<T> {
    consolidate_deprecated_keychains: Option<bool>,
    fee_rate: Option<FeeRate>,
    reserved_utxos: Option<HashMap<KeychainId, Vec<OutPoint>>>,
    current_wallet: Option<WalletId>,
    current_payouts: Vec<TxPayout>,
    current_wallet_psbts: Vec<(KeychainId, Psbt)>,
    result: FinishedPsbtBuild,
    input_weights: OutPointMap<usize>,
    all_included_utxos: OutPointMap<()>,
    _phantom: PhantomData<T>,
}

impl<T> View for PsbtBuilder<T> {
    type V = BuilderView;

    closed spec fn view(&self) -> BuilderView {
        BuilderView {
            consolidate_deprecated_keychains: self.consolidate_deprecated_keychains,
            fee_rate: self.fee_rate,
            reserved_utxos: match self.reserved_utxos {
                Some(reserved) => Some(lists_view(reserved@)),
                None => None,
            },
            current_wallet: self.current_wallet,
            current_payouts: self.current_payouts@,
            current_wallet_psbts: self.current_wallet_psbts@,
            result: self.result@,
            input_weights: self.input_weights@,
            all_included_utxos: self.all_included_utxos@.dom(),
        }
    }
}

impl<T> PsbtBuilder<T> {
    /// The same builder, waiting for something else.
    fn into_state<U>(self) -> (res: PsbtBuilder<U>)
        ensures
            res@ == self@,
    {
        PsbtBuilder {
            consolidate_deprecated_keychains: self.consolidate_deprecated_keychains,
            fee_rate: self.fee_rate,
            reserved_utxos: self.reserved_utxos,
            current_wallet: self.current_wallet,
            current_payouts: self.current_payouts,
            current_wallet_psbts: self.current_wallet_psbts,
            result: self.result,
            input_weights: self.input_weights,
            all_included_utxos: self.all_included_utxos,
            _phantom: PhantomData,
        }
    }

    /// Does the transaction have an output for all change and an output of its own
    /// for each payout?
    pub fn outputs_accounted_for(&self) -> (res: bool)
        ensures
            res == self@.result.outputs_accounted_for(),
    {
        self.result.outputs_accounted_for()
    }

    /// Is the fee rate known?
    pub fn has_fee_rate(&self) -> (res: bool)
        ensures
            res == (self@.fee_rate is Some),
    {
        self.fee_rate.is_some()
    }

    /// Are there no transactions of deprecated keychains left that no payout used?
    pub fn has_no_open_psbts(&self) -> (res: bool)
        ensures
            res == (self@.current_wallet_psbts.len() == 0),
    {
        self.current_wallet_psbts.is_empty()
    }

    fn finish_inner(self) -> (res: FinishedPsbtBuild)
        requires
            self@.result.outputs_accounted_for(),
            self@.result.totals_cover_utxos(),
        ensures
            self@.result.finishes_to(res@),
    {
        self.result.settle()
    }

    /// The outputs of a keychain that must not be spent.
    fn reserved_of(&self, keychain_id: KeychainId) -> (res: Vec<OutPoint>)
        ensures
            res@ == self@.reserved_of(keychain_id),
    {
        let mut res: Vec<OutPoint> = Vec::new();
        if let Some(reserved) = &self.reserved_utxos {
            if let Some(list) = reserved.get(&keychain_id) {
                for i in 0..list.len()
                    invariant
                        res@ =~= list@.take(i as int),
                {
                    res.push(list[i]);
                }
                assert(res@ =~= list@);
            }
        }
        res
    }
}

impl Default for PsbtBuilder<InitialPsbtBuilderState> {
    fn default() -> (res: Self)
        ensures
            res@ == BuilderView::initial(),
            res@.well_formed(),
    {
        PsbtBuilder::new()
    }
}

impl PsbtBuilder<InitialPsbtBuilderState> {
    /// A builder with nothing configured and nothing built.
    pub fn new() -> (res: Self)
        ensures
            res@ == BuilderView::initial(),
            res@.well_formed(),
    {
        let book = UtxoBook::new();
        let res = PsbtBuilder {
            consolidate_deprecated_keychains: None,
            fee_rate: None,
            reserved_utxos: None,
            current_wallet: None,
            current_payouts: Vec::new(),
            current_wallet_psbts: Vec::new(),
            result: FinishedPsbtBuild {
                included_payouts: HashMap::new(),
                included_utxos: book.utxos,
                included_wallet_keychains: book.keychains,
                wallet_totals: HashMap::new(),
                fee_satoshis: Satoshis::zero(),
                tx_id: None,
                psbt: None,
            },
            input_weights: OutPointMap::new(),
            all_included_utxos: book.included,
            _phantom: PhantomData,
        };
        proof {
            let start = BuilderView::initial();
            assert(res@.result.included_payouts =~= start.result.included_payouts);
            assert(res@.result.wallet_totals =~= start.result.wallet_totals);
            assert(res@.book() =~= book@);
            assert(res@ =~= start);
        }
        res
    }

    /// Whether deprecated keychains are to be emptied.
    pub fn consolidate_deprecated_keychains(
        self,
        consolidate_deprecated_keychains: bool,
    ) -> (res: Self)
        ensures
            res@ == (BuilderView {
                consolidate_deprecated_keychains: Some(consolidate_deprecated_keychains),
                ..self@
            }),
            self@.well_formed() ==> res@.well_formed(),
    {
        let res = PsbtBuilder {
            consolidate_deprecated_keychains: Some(consolidate_deprecated_keychains),
            ..self
        };
        assert(res@.book() == self@.book());
        res
    }

    /// The outputs that must not be spent, by keychain.
    pub fn reserved_utxos(
        self,
        reserved_utxos: HashMap<KeychainId, Vec<OutPoint>>,
    ) -> (res: Self)
        ensures
            res@ == (BuilderView {
                reserved_utxos: Some(lists_view(reserved_utxos@)),
                ..self@
            }),
            self@.well_formed() ==> res@.well_formed(),
    {
        let res = PsbtBuilder { reserved_utxos: Some(reserved_utxos), ..self };
        assert(res@.book() == self@.book());
        res
    }

    /// The fee rate of the transaction.
    pub fn fee_rate(self, fee_rate: FeeRate) -> (res: Self)
        ensures
            res@ == (BuilderView { fee_rate: Some(fee_rate), ..self@ }),
            self@.well_formed() ==> res@.well_formed(),
    {
        let res = PsbtBuilder { fee_rate: Some(fee_rate), ..self };
        assert(res@.book() == self@.book());
        res
    }

    /// The configuration is complete.
    pub fn accept_wallets(self) -> (res: PsbtBuilder<AcceptingWalletState>)
        ensures
            res@ == self@.between_wallets(),
            self@.well_formed() ==> res@.well_formed(),
    {
        let res: PsbtBuilder<AcceptingWalletState> = PsbtBuilder {
            current_wallet: None,
            current_payouts: Vec::new(),
            ..self
        }.into_state();
        assert(res@.book() == self@.book());
        res
    }
}

impl PsbtBuilder<AcceptingWalletState> {
    /// The next wallet, and the payouts that it has to make.
    pub fn wallet_payouts(
        self,
        wallet_id: WalletId,
        payouts: Vec<TxPayout>,
    ) -> (res: PsbtBuilder<AcceptingDeprecatedKeychainState>)
        requires
            self@.current_wallet_psbts.len() == 0,
        ensures
            res@ == self@.for_wallet(wallet_id, payouts@),
            self@.well_formed() ==> res@.well_formed(),
    {
        let res: PsbtBuilder<AcceptingDeprecatedKeychainState> = PsbtBuilder {
            current_wallet: Some(wallet_id),
            current_payouts: payouts,
            ..self
        }.into_state();
        assert(res@.book() == self@.book());
        res
    }

    /// The transaction, and what it means for each wallet.
    pub fn finish(self) -> (res: FinishedPsbtBuild)
        requires
            self@.result.outputs_accounted_for(),
            self@.result.totals_cover_utxos(),
        ensures
            self@.result.finishes_to(res@),
    {
        self.finish_inner()
    }
}

} // verus!
