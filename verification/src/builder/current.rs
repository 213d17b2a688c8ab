//! The visit of a wallet's current keychain: as many of its payouts as it can pay,
//! in their order, go into the transaction.

use vstd::prelude::*;

use super::plans::{add_foreign_inputs, add_outputs, foreign_utxos_of, lemma_weigh_inputs};
use super::plans::{note_weights, recipients_of_payouts, recipients_view};
use super::{AcceptingCurrentKeychainState, AcceptingWalletState, PsbtBuilder};
use crate::builder_model::{change_value, is_payable, sum_payouts, BuilderView};
use crate::finished::{totals_view, FinishedPsbtBuild, WalletTotals};
use crate::primitives::{is_amount, KeychainId, Satoshis, MAX_SATOSHIS};
use crate::psbt::{BuiltTx, TxOrdering, TxOut, TxPayout, TxPlan, DEFAULT_SIGHASH_TYPE};
use crate::script::{same_script, AddressInfo};
use crate::utxo_book::{lemma_attribute_inputs, lemma_include_psbts, UtxoBook};

verus! {

broadcast use vstd::std_specs::hash::group_hash_axioms;

/// What came of the attempt to build a transaction.
pub enum TrialOutcome {
    /// It was built.
    Built,
    /// The wallet does not have that much.
    InsufficientFunds,
    /// It failed for another reason.
    Failed(bdk::Error),
}

/// Why a visit failed.
pub enum BdkError {
    BdkLibError(bdk::Error),
}

/// How the visit of a current keychain goes on.
pub enum CurrentVisit {
    /// See whether the wallet can pay one more payout.
    Trial(PayoutTrial),
    /// Build the transaction.
    Build(WalletBuild),
    /// The wallet pays nothing; the visit is over.
    Unfunded(PsbtBuilder<AcceptingCurrentKeychainState>),
}

/// The question whether a wallet can pay one more payout.
pub struct PayoutTrial {
    pub builder: PsbtBuilder<AcceptingCurrentKeychainState>,
    pub keychain_id: KeychainId,
    pub satisfaction_weight: usize,
    pub change_address: AddressInfo,
    /// The number of payouts that the wallet can pay for sure.
    pub max_payout: usize,
    /// The transaction to try.
    pub plan: TxPlan,
}

/// The transaction with the payouts of one more wallet.
pub struct WalletBuild {
    pub builder: PsbtBuilder<AcceptingCurrentKeychainState>,
    pub keychain_id: KeychainId,
    pub satisfaction_weight: usize,
    pub change_address: AddressInfo,
    /// What the payouts of the wallet come to.
    pub output_satoshis: Satoshis,
    /// The transaction to build.
    pub plan: TxPlan,
}

impl BuilderView {
    /// What holds while a wallet has its turn.
    pub open spec fn ready_for_wallet(self) -> bool {
        &&& self.well_formed()
        &&& self.current_wallet is Some
    }

    /// What holds after the payouts of a wallet went into the transaction, before
    /// the transaction is built.
    pub open spec fn committed_well_formed(self) -> bool {
        &&& self.current_wallet is Some
        &&& self.current_wallet_psbts.len() == 0
        &&& self.result.psbt is None
        &&& self.book().consistent()
        &&& self.result.included_utxos.dom().subset_of(
            self.result.wallet_totals.dom().insert(self.current_wallet->0),
        )
        &&& self.result.included_payouts.dom() == self.result.wallet_totals.dom().insert(
            self.current_wallet->0,
        )
        &&& self.result.totals_balance()
        &&& 0 <= self.result.fee_satoshis <= u64::MAX
    }
}

impl PayoutTrial {
    /// Is this a question that a visit asks?
    pub open spec fn well_formed(self) -> bool {
        &&& self.builder@.ready_for_wallet()
        &&& self.builder@.fee_rate is Some
        &&& self.max_payout < self.builder@.current_payouts.len()
        &&& forall|i: int|
            0 <= i <= self.max_payout ==> is_payable(
                #[trigger] self.builder@.current_payouts[i],
            )
        &&& self.plan@ == self.builder@.trial_plan(self.keychain_id, self.max_payout + 1)
    }

    /// Is `build` the transaction with the first `n` payouts?
    pub open spec fn builds(self, n: int, build: WalletBuild) -> bool {
        &&& build.builder@ == self.builder@.committed(n)
        &&& build.keychain_id == self.keychain_id
        &&& build.satisfaction_weight == self.satisfaction_weight
        &&& build.change_address == self.change_address
        &&& build.output_satoshis@ == sum_payouts(self.builder@.current_payouts, n as nat)
        &&& build.plan@ == self.builder@.build_plan(
            self.keychain_id,
            n,
            self.change_address.address.script(),
        )
        &&& build.builder@.committed_well_formed()
    }

    /// The number of payouts that go into the transaction if the trial ends like
    /// that and is the last one.
    pub open spec fn payouts_after(self, outcome: TrialOutcome) -> int {
        if outcome is Built {
            self.max_payout + 1
        } else {
            self.max_payout as int
        }
    }

    /// Is one more trial to follow?
    pub open spec fn continues_after(self, outcome: TrialOutcome) -> bool {
        outcome is Built && self.max_payout + 1 < self.builder@.current_payouts.len()
    }
}

/// The given payouts behind those of a list. Their outputs are not known yet.
fn append_payouts(list: &mut Vec<(TxPayout, u32)>, payouts: Vec<TxPayout>)
    ensures
        final(list)@ == old(list)@ + payouts@.map_values(|payout: TxPayout| (payout, 0u32)),
{
    for payout in iter: payouts
        invariant
            iter.seq() == payouts@,
            list@ =~= old(list)@ + payouts@.take(iter.index()).map_values(
                |payout: TxPayout| (payout, 0u32),
            ),
    {
        list.push((payout, 0));
    }
    assert(payouts@.take(payouts@.len() as int) =~= payouts@);
}

/// Payouts that can be outputs never bring a sum down.
proof fn lemma_sum_payouts_grows(payouts: Seq<TxPayout>, n: nat, m: nat)
    requires
        n <= m <= payouts.len(),
        forall|i: int| 0 <= i < m ==> is_payable(#[trigger] payouts[i]),
    ensures
        0 <= sum_payouts(payouts, n) <= sum_payouts(payouts, m),
    decreases m,
{
    if m > 0 {
        if n < m {
            lemma_sum_payouts_grows(payouts, n, (m - 1) as nat);
        } else {
            lemma_sum_payouts_grows(payouts, (m - 1) as nat, (m - 1) as nat);
        }
        assert(is_payable(payouts[m - 1]));
    }
}

/// What the first `n` payouts come to.
fn total_of(payouts: &Vec<TxPayout>, n: usize) -> (res: Satoshis)
    requires
        n <= payouts@.len(),
        forall|i: int| 0 <= i < n ==> is_payable(#[trigger] payouts@[i]),
        is_amount(sum_payouts(payouts@, n as nat)),
    ensures
        res@ == sum_payouts(payouts@, n as nat),
{
    let mut total = Satoshis::zero();
    for i in 0..n
        invariant
            n <= payouts@.len(),
            forall|j: int| 0 <= j < n ==> is_payable(#[trigger] payouts@[j]),
            is_amount(sum_payouts(payouts@, n as nat)),
            total@ == sum_payouts(payouts@, i as nat),
    {
        proof {
            lemma_sum_payouts_grows(payouts@, (i + 1) as nat, n as nat);
        }
        total = total.plus(payouts[i].2);
    }
    total
}

/// The value of the first output that pays to `script`, or nothing.
fn change_of(outputs: &Vec<TxOut>, script: &Vec<u8>) -> (res: u64)
    ensures
        res == change_value(outputs@, script@, 0),
{
    let mut i: usize = 0;
    while i < outputs.len()
        invariant
            i <= outputs@.len(),
            change_value(outputs@, script@, 0) == change_value(outputs@, script@, i as int),
        decreases outputs@.len() - i,
    {
        if same_script(&outputs[i].script_pubkey, script) {
            return outputs[i].value;
        }
        i += 1;
    }
    0
}

/// The payouts of a wallet, and what its deprecated keychains give, go into the
/// transaction: what holds then.
pub proof fn lemma_committed(builder: BuilderView, n: int)
    requires
        builder.ready_for_wallet(),
    ensures
        builder.committed(n).committed_well_formed(),
{
    let wallet = builder.current_wallet->0;
    let now = builder.committed(n);
    lemma_include_psbts(
        builder.book(),
        wallet,
        builder.current_wallet_psbts,
        builder.current_wallet_psbts.len(),
    );
    assert(now.book() == builder.book().include_psbts(
        wallet,
        builder.current_wallet_psbts,
        builder.current_wallet_psbts.len(),
    ));
    assert(now.result.included_payouts.dom() =~= now.result.wallet_totals.dom().insert(wallet));
}

/// The transaction with the payouts of a wallet is built: what holds then.
pub proof fn lemma_completed(
    builder: BuilderView,
    keychain: KeychainId,
    satisfaction_weight: usize,
    change_address: AddressInfo,
    output: int,
    built: BuiltTx,
)
    requires
        builder.committed_well_formed(),
    ensures
        builder.completed(
            keychain,
            satisfaction_weight,
            change_address,
            output,
            built,
        ).ready_for_wallet(),
{
    let wallet = builder.current_wallet->0;
    let inputs = built.psbt.inputs@;
    let now = builder.completed(keychain, satisfaction_weight, change_address, output, built);
    lemma_attribute_inputs(builder.book(), wallet, keychain, inputs, inputs.len());
    lemma_weigh_inputs(builder.input_weights, inputs, satisfaction_weight, inputs.len());
    assert(inputs.take(inputs.len() as int) =~= inputs);
    assert(now.book() == builder.book().attribute_inputs(wallet, keychain, inputs, inputs.len()));
    assert(now.result.included_payouts.dom() =~= now.result.wallet_totals.dom());
    assert(now.inputs_weighed());
}

impl PsbtBuilder<AcceptingCurrentKeychainState> {
    /// Has the wallet payouts to make?
    pub fn has_payouts(&self) -> (res: bool)
        ensures
            res == (self@.current_payouts.len() > 0),
    {
        !self.current_payouts.is_empty()
    }

    /// Can payout number `n` be an output, if there is one?
    pub fn payout_is_payable(&self, n: usize) -> (res: bool)
        ensures
            res == (n < self@.current_payouts.len() ==> is_payable(
                self@.current_payouts[n as int],
            )),
    {
        n >= self.current_payouts.len() || self.current_payouts[n].2.is_output_value()
    }

    /// Is what the first `n` payouts come to an amount?
    pub fn payouts_sum_up(&self, n: usize) -> (res: bool)
        requires
            n <= self@.current_payouts.len(),
            forall|i: int| 0 <= i < n ==> is_payable(#[trigger] self@.current_payouts[i]),
        ensures
            res == is_amount(sum_payouts(self@.current_payouts, n as nat)),
    {
        let mut total: i128 = 0;
        for i in 0..n
            invariant
                n <= self@.current_payouts.len(),
                forall|j: int| 0 <= j < n ==> is_payable(#[trigger] self@.current_payouts[j]),
                0 <= total <= MAX_SATOSHIS,
                total == sum_payouts(self@.current_payouts, i as nat),
        {
            proof {
                assert(is_payable(self@.current_payouts[i as int]));
                lemma_sum_payouts_grows(self@.current_payouts, (i + 1) as nat, n as nat);
            }
            total = total + self.current_payouts[i].2.into_inner();
            if total > MAX_SATOSHIS {
                return false;
            }
        }
        true
    }

    /// The transaction that shows whether the wallet can pay its first `n` payouts.
    pub fn try_build_current_wallet_psbt(&self, keychain_id: KeychainId, n: usize) -> (res: TxPlan)
        requires
            self@.inputs_weighed(),
            self@.fee_rate is Some,
            n <= self@.current_payouts.len(),
            forall|i: int| 0 <= i < n ==> is_payable(#[trigger] self@.current_payouts[i]),
        ensures
            res@ == self@.trial_plan(keychain_id, n as int),
            !res.drain_wallet,
            res.drain_to is None,
            res.recipients@.len() == n,
    {
        let plan = TxPlan {
            fee_rate: self.fee_rate.unwrap(),
            unspendable: self.reserved_of(keychain_id),
            recipients: recipients_of_payouts(&self.current_payouts, n),
            foreign_utxos: foreign_utxos_of(&self.input_weights, &self.current_wallet_psbts),
            drain_wallet: false,
            drain_to: None,
            sighash: None,
            ordering: TxOrdering::Default,
        };
        assert(plan@.recipients == recipients_view(plan.recipients@));
        plan
    }

    /// Visits the current keychain `keychain_id`, whose wallet was read:
    /// `satisfaction_weight` is the most that satisfying an input of it weighs,
    /// `change_address` where its change goes.
    pub fn visit_bdk_wallet(
        self,
        keychain_id: KeychainId,
        satisfaction_weight: usize,
        change_address: AddressInfo,
    ) -> (res: CurrentVisit)
        requires
            self@.ready_for_wallet(),
            self@.current_payouts.len() > 0 ==> self@.fee_rate is Some && is_payable(
                self@.current_payouts[0],
            ),
        ensures
            match res {
                CurrentVisit::Trial(trial) => {
                    &&& self@.current_payouts.len() > 0
                    &&& trial.well_formed()
                    &&& trial.builder@ == self@
                    &&& trial.keychain_id == keychain_id
                    &&& trial.satisfaction_weight == satisfaction_weight
                    &&& trial.change_address == change_address
                    &&& trial.max_payout == 0
                },
                CurrentVisit::Build(_) => false,
                CurrentVisit::Unfunded(builder) => self@.current_payouts.len() == 0 && builder@
                    == self@,
            },
    {
        if self.current_payouts.len() == 0 {
            return CurrentVisit::Unfunded(self);
        }
        let plan = self.try_build_current_wallet_psbt(keychain_id, 1);
        CurrentVisit::Trial(
            PayoutTrial {
                builder: self,
                keychain_id,
                satisfaction_weight,
                change_address,
                max_payout: 0,
                plan,
            },
        )
    }

    /// The wallet was visited.
    pub fn next_wallet(self) -> (res: PsbtBuilder<AcceptingWalletState>)
        ensures
            res@ == self@.between_wallets(),
            self@.well_formed() ==> res@.well_formed(),
    {
        let res: PsbtBuilder<AcceptingWalletState> = PsbtBuilder {
            current_wallet: None,
            current_payouts: Vec::new(),
            ..self
        }.into_state();
        assert(res@.book() == self@.book());
        res
    }

    /// The transaction, and what it means for each wallet.
    pub fn finish(self) -> (res: FinishedPsbtBuild)
        requires
            self@.result.outputs_accounted_for(),
            self@.result.totals_cover_utxos(),
        ensures
            self@.result.finishes_to(res@),
    {
        self.finish_inner()
    }
}

impl PayoutTrial {
    /// The trial is over.
    pub fn trial_finished(self, outcome: TrialOutcome) -> (res: Result<CurrentVisit, BdkError>)
        requires
            self.well_formed(),
            self.continues_after(outcome) ==> is_payable(
                self.builder@.current_payouts[self.max_payout + 1],
            ),
            !(outcome is Failed) && !self.continues_after(outcome) ==> is_amount(
                sum_payouts(
                    self.builder@.current_payouts,
                    self.payouts_after(outcome) as nat,
                ),
            ),
        ensures
            match (outcome, res) {
                (TrialOutcome::Failed(error), Err(BdkError::BdkLibError(e))) => e == error,
                (TrialOutcome::Failed(_), Ok(_)) => false,
                (_, Err(_)) => false,
                (_, Ok(CurrentVisit::Trial(trial))) => {
                    &&& self.continues_after(outcome)
                    &&& trial.well_formed()
                    &&& trial.builder@ == self.builder@
                    &&& trial.keychain_id == self.keychain_id
                    &&& trial.satisfaction_weight == self.satisfaction_weight
                    &&& trial.change_address == self.change_address
                    &&& trial.max_payout == self.max_payout + 1
                },
                (_, Ok(CurrentVisit::Build(build))) => {
                    &&& !self.continues_after(outcome)
                    &&& self.payouts_after(outcome) > 0
                    &&& self.builds(self.payouts_after(outcome), build)
                },
                (_, Ok(CurrentVisit::Unfunded(builder))) => {
                    &&& !self.continues_after(outcome)
                    &&& self.payouts_after(outcome) == 0
                    &&& builder@ == self.builder@
                },
            },
    {
        let count: usize = self.builder.current_payouts.len();
        let n: usize = match outcome {
            TrialOutcome::Built => {
                let n: usize = self.max_payout + 1;
                if n < count {
                    let plan = self.builder.try_build_current_wallet_psbt(
                        self.keychain_id,
                        n + 1,
                    );
                    return Ok(
                        CurrentVisit::Trial(PayoutTrial { max_payout: n, plan, ..self }),
                    );
                }
                n
            },
            TrialOutcome::InsufficientFunds => self.max_payout,
            TrialOutcome::Failed(error) => return Err(BdkError::BdkLibError(error)),
        };
        if n == 0 {
            Ok(CurrentVisit::Unfunded(self.builder))
        } else {
            Ok(CurrentVisit::Build(self.commit(n)))
        }
    }

    /// The first `n` payouts go into the transaction.
    fn commit(self, n: usize) -> (res: WalletBuild)
        requires
            self.builder@.ready_for_wallet(),
            self.builder@.fee_rate is Some,
            0 < n <= self.builder@.current_payouts.len(),
            forall|i: int|
                0 <= i < n ==> is_payable(#[trigger] self.builder@.current_payouts[i]),
            is_amount(sum_payouts(self.builder@.current_payouts, n as nat)),
        ensures
            self.builds(n as int, res),
    {
        let ghost before = self.builder@;
        let mut builder = self.builder;
        let wallet_id = builder.current_wallet.unwrap();
        let output_satoshis = total_of(&builder.current_payouts, n);

        let mut plan = TxPlan {
            fee_rate: builder.fee_rate.unwrap(),
            unspendable: builder.reserved_of(self.keychain_id),
            recipients: recipients_of_payouts(&builder.current_payouts, n),
            foreign_utxos: foreign_utxos_of(
                &builder.input_weights,
                &builder.current_wallet_psbts,
            ),
            drain_wallet: false,
            drain_to: Some(self.change_address.address.script_pubkey()),
            sighash: Some(DEFAULT_SIGHASH_TYPE),
            ordering: TxOrdering::Bip69Lexicographic,
        };
        if let Some(psbt) = &builder.result.psbt {
            add_foreign_inputs(&mut plan.foreign_utxos, &builder.input_weights, &psbt.inputs);
            add_outputs(&mut plan.recipients, &psbt.outputs);
        }
        proof {
            let planned = before.build_plan(
                self.keychain_id,
                n as int,
                self.change_address.address.script(),
            );
            assert(plan@.recipients == recipients_view(plan.recipients@));
            assert(plan@.recipients =~= planned.recipients);
            assert(plan@.foreign_utxos =~= planned.foreign_utxos);
            assert(plan@ =~= planned);
        }

        let rest = builder.current_payouts.split_off(n);
        let mut included = match builder.result.included_payouts.remove(&wallet_id) {
            Some(list) => list,
            None => Vec::new(),
        };
        append_payouts(&mut included, builder.current_payouts);
        let ghost listed = included@;
        builder.result.included_payouts.insert(wallet_id, included);
        builder.current_payouts = rest;

        let mut book = UtxoBook {
            utxos: builder.result.included_utxos,
            keychains: builder.result.included_wallet_keychains,
            included: builder.all_included_utxos,
        };
        assert(book@ =~= before.book());
        book.include_psbts(wallet_id, &builder.current_wallet_psbts);
        builder.result.included_utxos = book.utxos;
        builder.result.included_wallet_keychains = book.keychains;
        builder.all_included_utxos = book.included;
        builder.current_wallet_psbts = Vec::new();
        builder.result.psbt = None;
        proof {
            let now = before.committed(n as int);
            assert(builder@.result.included_payouts =~= now.result.included_payouts);
            assert(builder@.current_payouts =~= now.current_payouts);
            assert(builder@.result =~= now.result);
            assert(builder@ =~= now);
            lemma_committed(before, n as int);
        }
        WalletBuild {
            builder,
            keychain_id: self.keychain_id,
            satisfaction_weight: self.satisfaction_weight,
            change_address: self.change_address,
            output_satoshis,
            plan,
        }
    }
}

impl WalletBuild {
    /// The fee that falls to the wallet.
    pub open spec fn wallet_fee(self, built: BuiltTx) -> int {
        built.fee - self.builder@.result.fee_satoshis
    }

    /// The change that the wallet gets.
    pub open spec fn wallet_change(self, built: BuiltTx) -> int {
        change_value(built.psbt.outputs@, self.change_address.address.script(), 0) as int
    }

    /// Are the totals of the wallet amounts?
    pub open spec fn totals_are_amounts(self, built: BuiltTx) -> bool {
        &&& is_amount(self.output_satoshis@ + self.wallet_fee(built))
        &&& is_amount(
            self.output_satoshis@ + self.wallet_fee(built) + self.wallet_change(built),
        )
    }

    /// Are the totals of the wallet amounts, if the transaction is `built`?
    pub fn totals_fit(&self, built: &BuiltTx) -> (res: bool)
        requires
            self.builder@.committed_well_formed(),
        ensures
            res == self.totals_are_amounts(*built),
    {
        let output: i128 = self.output_satoshis.into_inner();
        let fee_before: i128 = self.builder.result.fee_satoshis.into_inner();
        let script = self.change_address.address.script_pubkey();
        let change: u64 = change_of(&built.psbt.outputs, &script);
        let spent: i128 = output + (built.fee as i128 - fee_before);
        let input: i128 = spent + change as i128;
        -MAX_SATOSHIS <= spent && spent <= MAX_SATOSHIS && -MAX_SATOSHIS <= input && input
            <= MAX_SATOSHIS
    }

    /// The transaction was built.
    pub fn finished(self, built: BuiltTx) -> (res: PsbtBuilder<AcceptingCurrentKeychainState>)
        requires
            self.builder@.committed_well_formed(),
            self.totals_are_amounts(built),
        ensures
            res@ == self.builder@.completed(
                self.keychain_id,
                self.satisfaction_weight,
                self.change_address,
                self.output_satoshis@,
                built,
            ),
            res@.ready_for_wallet(),
    {
        let ghost before = self.builder@;
        let mut builder = self.builder;
        let wallet_id = builder.current_wallet.unwrap();
        let fee_satoshis = Satoshis::from_output_value(built.fee);
        let wallet_fee = fee_satoshis.minus(builder.result.fee_satoshis);
        let script = self.change_address.address.script_pubkey();
        let change_satoshis = Satoshis::from_output_value(
            change_of(&built.psbt.outputs, &script),
        );
        let totals = WalletTotals {
            wallet_id,
            change_keychain_id: self.keychain_id,
            keychains_with_inputs: Vec::new(),
            input_satoshis: self.output_satoshis.plus(wallet_fee).plus(change_satoshis),
            output_satoshis: self.output_satoshis,
            fee_satoshis: wallet_fee,
            change_satoshis,
            change_address: self.change_address,
            change_outpoint: None,
        };
        let ghost totals_now = before.totals_of(
            self.keychain_id,
            self.change_address,
            self.output_satoshis@,
            built,
        );
        assert(totals@ =~= totals_now);
        let ghost totals_before = totals_view(builder.result.wallet_totals@);
        builder.result.wallet_totals.insert(wallet_id, totals);
        assert(totals_view(builder.result.wallet_totals@) =~= totals_before.insert(
            wallet_id,
            totals_now,
        ));
        builder.result.fee_satoshis = fee_satoshis;

        note_weights(&mut builder.input_weights, &built.psbt.inputs, self.satisfaction_weight);
        let mut book = UtxoBook {
            utxos: builder.result.included_utxos,
            keychains: builder.result.included_wallet_keychains,
            included: builder.all_included_utxos,
        };
        assert(book@ =~= before.book());
        book.attribute_inputs(wallet_id, self.keychain_id, &built.psbt.inputs);
        builder.result.included_utxos = book.utxos;
        builder.result.included_wallet_keychains = book.keychains;
        builder.all_included_utxos = book.included;
        builder.result.psbt = Some(built.psbt);
        builder.result.tx_id = Some(built.txid);
        proof {
            let now = before.completed(
                self.keychain_id,
                self.satisfaction_weight,
                self.change_address,
                self.output_satoshis@,
                built,
            );
            assert(builder@.result =~= now.result);
            assert(builder@ =~= now);
            lemma_completed(
                before,
                self.keychain_id,
                self.satisfaction_weight,
                self.change_address,
                self.output_satoshis@,
                built,
            );
        }
        builder
    }
}

} // verus!
