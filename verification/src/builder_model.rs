//! What building a transaction for several wallets is, step by step.

use bdk::FeeRate;
use vstd::prelude::*;

use crate::finished::{FinishedView, WalletTotalsView};
use crate::primitives::{KeychainId, OutPoint, WalletId};
use crate::psbt::{BuiltTx, ForeignUtxo, Psbt, PsbtInput, TxOrdering, TxOut, TxPayout};
use crate::psbt::{TxPlanView, DEFAULT_SIGHASH_TYPE};
use crate::script::AddressInfo;
use crate::utxo_book::UtxoBookView;

verus! {

/// The state of a build.
#[verifier::ext_equal]
pub struct BuilderView {
    pub consolidate_deprecated_keychains: Option<bool>,
    pub fee_rate: Option<FeeRate>,
    pub reserved_utxos: Option<Map<KeychainId, Seq<OutPoint>>>,
    pub current_wallet: Option<WalletId>,
    pub current_payouts: Seq<TxPayout>,
    pub current_wallet_psbts: Seq<(KeychainId, Psbt)>,
    pub result: FinishedView,
    pub input_weights: Map<OutPoint, usize>,
    pub all_included_utxos: Set<OutPoint>,
}

/// Can the payout be an output of a transaction?
pub open spec fn is_payable(payout: TxPayout) -> bool {
    0 <= payout.2@ <= u64::MAX
}

/// The outputs that make the given payouts.
pub open spec fn payout_recipients(payouts: Seq<TxPayout>) -> Seq<(Seq<u8>, u64)> {
    payouts.map_values(|payout: TxPayout| (payout.1.script(), payout.2@ as u64))
}

/// The outputs that repeat the given ones.
pub open spec fn output_recipients(outputs: Seq<TxOut>) -> Seq<(Seq<u8>, u64)> {
    outputs.map_values(|output: TxOut| (output.script_pubkey@, output.value))
}

/// What the first `n` payouts come to.
pub open spec fn sum_payouts(payouts: Seq<TxPayout>, n: nat) -> int
    decreases n,
{
    if n == 0 {
        0
    } else {
        sum_payouts(payouts, (n - 1) as nat) + payouts[n - 1].2@
    }
}

/// Has each of the inputs its weight?
pub open spec fn weights_cover(weights: Map<OutPoint, usize>, inputs: Seq<PsbtInput>) -> bool {
    forall|i: int|
        0 <= i < inputs.len() ==> weights.contains_key((#[trigger] inputs[i]).previous_output)
}

/// Is each of the inputs among the outputs `included`?
pub open spec fn all_included(included: Set<OutPoint>, inputs: Seq<PsbtInput>) -> bool {
    forall|i: int|
        0 <= i < inputs.len() ==> included.contains((#[trigger] inputs[i]).previous_output)
}

/// The given inputs as inputs that another wallet owns.
pub open spec fn foreign_inputs(weights: Map<OutPoint, usize>, inputs: Seq<PsbtInput>) -> Seq<
    ForeignUtxo,
> {
    inputs.map_values(
        |input: PsbtInput|
            ForeignUtxo {
                outpoint: input.previous_output,
                details: input.details,
                satisfaction_weight: weights[input.previous_output],
            },
    )
}

/// The inputs of the first `n` transactions as inputs that another wallet owns.
pub open spec fn foreign_psbts(
    weights: Map<OutPoint, usize>,
    psbts: Seq<(KeychainId, Psbt)>,
    n: nat,
) -> Seq<ForeignUtxo>
    decreases n,
{
    if n == 0 {
        Seq::empty()
    } else {
        foreign_psbts(weights, psbts, (n - 1) as nat) + foreign_inputs(
            weights,
            psbts[n - 1].1.inputs@,
        )
    }
}

/// The weights with that of each of the first `n` inputs set to `weight`.
pub open spec fn weigh_inputs(
    weights: Map<OutPoint, usize>,
    inputs: Seq<PsbtInput>,
    weight: usize,
    n: nat,
) -> Map<OutPoint, usize>
    decreases n,
{
    if n == 0 {
        weights
    } else {
        weigh_inputs(weights, inputs, weight, (n - 1) as nat).insert(
            inputs[n - 1].previous_output,
            weight,
        )
    }
}

/// The value of the first output at `start` or behind it that pays to `script`, or
/// nothing if there is none.
pub open spec fn change_value(outputs: Seq<TxOut>, script: Seq<u8>, start: int) -> u64
    decreases outputs.len() - start,
{
    if start < 0 || start >= outputs.len() {
        0
    } else if outputs[start].script_pubkey@ == script {
        outputs[start].value
    } else {
        change_value(outputs, script, start + 1)
    }
}

/// The lists of payouts with `payouts` behind those of `wallet`. Their outputs are
/// not known yet.
pub open spec fn list_payouts(
    included: Map<WalletId, Seq<(TxPayout, u32)>>,
    wallet: WalletId,
    payouts: Seq<TxPayout>,
) -> Map<WalletId, Seq<(TxPayout, u32)>> {
    let before = if included.contains_key(wallet) {
        included[wallet]
    } else {
        Seq::empty()
    };
    included.insert(wallet, before + payouts.map_values(|payout: TxPayout| (payout, 0u32)))
}

impl BuilderView {
    /// The state that a build starts in.
    pub open spec fn initial() -> BuilderView {
        BuilderView {
            consolidate_deprecated_keychains: None,
            fee_rate: None,
            reserved_utxos: None,
            current_wallet: None,
            current_payouts: Seq::empty(),
            current_wallet_psbts: Seq::empty(),
            result: FinishedView {
                included_payouts: Map::empty(),
                included_utxos: Map::empty(),
                included_wallet_keychains: Map::empty(),
                wallet_totals: Map::empty(),
                fee_satoshis: 0,
                tx_id: None,
                psbt: None,
            },
            input_weights: Map::empty(),
            all_included_utxos: Set::empty(),
        }
    }

    /// The book of the outputs that the transaction spends.
    pub open spec fn book(self) -> UtxoBookView {
        UtxoBookView {
            utxos: self.result.included_utxos,
            keychains: self.result.included_wallet_keychains,
            included: self.all_included_utxos,
        }
    }

    /// Have all inputs that were seen their weights?
    pub open spec fn inputs_weighed(self) -> bool {
        &&& forall|i: int|
            0 <= i < self.current_wallet_psbts.len() ==> weights_cover(
                self.input_weights,
                (#[trigger] self.current_wallet_psbts[i]).1.inputs@,
            )
        &&& self.result.psbt matches Some(psbt) ==> weights_cover(self.input_weights, psbt.inputs@)
    }

    /// Are all inputs of the transaction in the book?
    pub open spec fn inputs_booked(self) -> bool {
        self.result.psbt matches Some(psbt) ==> all_included(
            self.all_included_utxos,
            psbt.inputs@,
        )
    }

    /// What holds of every build between two visits of a wallet.
    pub open spec fn well_formed(self) -> bool {
        &&& self.inputs_weighed()
        &&& self.inputs_booked()
        &&& self.book().consistent()
        &&& self.result.totals_cover_utxos()
        &&& self.result.included_payouts.dom() == self.result.wallet_totals.dom()
        &&& self.result.totals_balance()
        &&& 0 <= self.result.fee_satoshis <= u64::MAX
    }

    /// No wallet has its turn.
    pub open spec fn between_wallets(self) -> BuilderView {
        BuilderView { current_wallet: None, current_payouts: Seq::empty(), ..self }
    }

    /// `wallet` has its turn, with payouts to make.
    pub open spec fn for_wallet(self, wallet: WalletId, payouts: Seq<TxPayout>) -> BuilderView {
        BuilderView { current_wallet: Some(wallet), current_payouts: payouts, ..self }
    }

    /// Is `other` configured in the same way?
    pub open spec fn same_configuration(self, other: BuilderView) -> bool {
        &&& other.consolidate_deprecated_keychains == self.consolidate_deprecated_keychains
        &&& other.fee_rate == self.fee_rate
        &&& other.reserved_utxos == self.reserved_utxos
    }

    /// Are deprecated keychains to be emptied?
    pub open spec fn consolidates(self) -> bool {
        self.consolidate_deprecated_keychains == Some(true)
    }

    /// The outputs of a keychain that must not be spent.
    pub open spec fn reserved_of(self, keychain: KeychainId) -> Seq<OutPoint> {
        match self.reserved_utxos {
            Some(reserved) => if reserved.contains_key(keychain) {
                reserved[keychain]
            } else {
                Seq::empty()
            },
            None => Seq::empty(),
        }
    }

    /// The transaction that empties a deprecated keychain.
    pub open spec fn drain_plan(self, keychain: KeychainId, drain_script: Seq<u8>) -> TxPlanView {
        TxPlanView {
            fee_rate: self.fee_rate->0,
            unspendable: self.reserved_of(keychain),
            recipients: Seq::empty(),
            foreign_utxos: Seq::empty(),
            drain_wallet: true,
            drain_to: Some(drain_script),
            sighash: Some(DEFAULT_SIGHASH_TYPE),
            ordering: TxOrdering::Default,
        }
    }

    /// A deprecated keychain was emptied by `psbt`.
    pub open spec fn drained(
        self,
        keychain: KeychainId,
        satisfaction_weight: usize,
        psbt: Psbt,
    ) -> BuilderView {
        BuilderView {
            input_weights: weigh_inputs(
                self.input_weights,
                psbt.inputs@,
                satisfaction_weight,
                psbt.inputs@.len(),
            ),
            current_wallet_psbts: self.current_wallet_psbts.push((keychain, psbt)),
            ..self
        }
    }

    /// The transaction that shows whether the wallet can pay its first `n` payouts.
    pub open spec fn trial_plan(self, keychain: KeychainId, n: int) -> TxPlanView {
        TxPlanView {
            fee_rate: self.fee_rate->0,
            unspendable: self.reserved_of(keychain),
            recipients: payout_recipients(self.current_payouts.take(n)),
            foreign_utxos: foreign_psbts(
                self.input_weights,
                self.current_wallet_psbts,
                self.current_wallet_psbts.len(),
            ),
            drain_wallet: false,
            drain_to: None,
            sighash: None,
            ordering: TxOrdering::Default,
        }
    }

    /// The transaction that makes the wallet's first `n` payouts and all that was
    /// built before.
    pub open spec fn build_plan(
        self,
        keychain: KeychainId,
        n: int,
        change_script: Seq<u8>,
    ) -> TxPlanView {
        TxPlanView {
            fee_rate: self.fee_rate->0,
            unspendable: self.reserved_of(keychain),
            recipients: payout_recipients(self.current_payouts.take(n)) + match self.result.psbt {
                Some(psbt) => output_recipients(psbt.outputs@),
                None => Seq::empty(),
            },
            foreign_utxos: foreign_psbts(
                self.input_weights,
                self.current_wallet_psbts,
                self.current_wallet_psbts.len(),
            ) + match self.result.psbt {
                Some(psbt) => foreign_inputs(self.input_weights, psbt.inputs@),
                None => Seq::empty(),
            },
            drain_wallet: false,
            drain_to: Some(change_script),
            sighash: Some(DEFAULT_SIGHASH_TYPE),
            ordering: TxOrdering::Bip69Lexicographic,
        }
    }

    /// The wallet's first `n` payouts, and what its deprecated keychains give, go
    /// into the transaction. The transaction built so far is used up.
    pub open spec fn committed(self, n: int) -> BuilderView {
        let wallet = self.current_wallet->0;
        let book = self.book().include_psbts(
            wallet,
            self.current_wallet_psbts,
            self.current_wallet_psbts.len(),
        );
        BuilderView {
            current_payouts: self.current_payouts.skip(n),
            current_wallet_psbts: Seq::empty(),
            result: FinishedView {
                included_payouts: list_payouts(
                    self.result.included_payouts,
                    wallet,
                    self.current_payouts.take(n),
                ),
                included_utxos: book.utxos,
                included_wallet_keychains: book.keychains,
                psbt: None,
                ..self.result
            },
            all_included_utxos: book.included,
            ..self
        }
    }

    /// The totals of the current wallet when its payouts come to `output` and the
    /// transaction is `built`.
    pub open spec fn totals_of(
        self,
        keychain: KeychainId,
        change_address: AddressInfo,
        output: int,
        built: BuiltTx,
    ) -> WalletTotalsView {
        let fee = built.fee - self.result.fee_satoshis;
        let change = change_value(built.psbt.outputs@, change_address.address.script(), 0);
        WalletTotalsView {
            wallet_id: self.current_wallet->0,
            change_keychain_id: keychain,
            keychains_with_inputs: Seq::empty(),
            input_satoshis: output + fee + change,
            output_satoshis: output,
            fee_satoshis: fee,
            change_satoshis: change as int,
            change_address,
            change_outpoint: None,
        }
    }

    /// The transaction with the wallet's payouts is `built`.
    pub open spec fn completed(
        self,
        keychain: KeychainId,
        satisfaction_weight: usize,
        change_address: AddressInfo,
        output: int,
        built: BuiltTx,
    ) -> BuilderView {
        let wallet = self.current_wallet->0;
        let inputs = built.psbt.inputs@;
        let book = self.book().attribute_inputs(wallet, keychain, inputs, inputs.len());
        BuilderView {
            result: FinishedView {
                included_utxos: book.utxos,
                included_wallet_keychains: book.keychains,
                wallet_totals: self.result.wallet_totals.insert(
                    wallet,
                    self.totals_of(keychain, change_address, output, built),
                ),
                fee_satoshis: built.fee as int,
                tx_id: Some(built.txid),
                psbt: Some(built.psbt),
                ..self.result
            },
            input_weights: weigh_inputs(
                self.input_weights,
                inputs,
                satisfaction_weight,
                inputs.len(),
            ),
            all_included_utxos: book.included,
            ..self
        }
    }
}

} // verus!
