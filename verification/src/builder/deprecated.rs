//! The visit of a deprecated keychain: all that it has is to be sent on.

use vstd::prelude::*;

use super::plans::{lemma_weigh_inputs, note_weights};
use super::{AcceptingCurrentKeychainState, AcceptingDeprecatedKeychainState, PsbtBuilder};
use crate::builder_model::BuilderView;
use crate::primitives::KeychainId;
use crate::psbt::{Psbt, TxOrdering, TxPlan, DEFAULT_SIGHASH_TYPE};
use crate::script::AddressInfo;

verus! {

/// How the visit of a deprecated keychain goes on.
pub enum DeprecatedVisit {
    /// There is nothing to do.
    Skipped(PsbtBuilder<AcceptingDeprecatedKeychainState>),
    /// The keychain is to be emptied: read its wallet.
    Drain(DrainVisit),
}

/// A deprecated keychain that is to be emptied.
pub struct DrainVisit {
    pub builder: PsbtBuilder<AcceptingDeprecatedKeychainState>,
    pub keychain_id: KeychainId,
}

/// The transaction that empties a deprecated keychain.
pub struct DrainBuild {
    pub builder: PsbtBuilder<AcceptingDeprecatedKeychainState>,
    pub keychain_id: KeychainId,
    pub satisfaction_weight: usize,
    pub plan: TxPlan,
}

impl PsbtBuilder<AcceptingDeprecatedKeychainState> {
    /// Visits the deprecated keychain `keychain_id`.
    pub fn visit_bdk_wallet(self, keychain_id: KeychainId) -> (res: DeprecatedVisit)
        ensures
            match res {
                DeprecatedVisit::Skipped(builder) => !self@.consolidates() && builder@ == self@,
                DeprecatedVisit::Drain(visit) => {
                    &&& self@.consolidates()
                    &&& visit.builder@ == self@
                    &&& visit.keychain_id == keychain_id
                },
            },
            res is Drain <==> self@.consolidate_deprecated_keychains == Some(true),
    {
        match self.consolidate_deprecated_keychains {
            Some(true) => DeprecatedVisit::Drain(DrainVisit { builder: self, keychain_id }),
            _ => DeprecatedVisit::Skipped(self),
        }
    }

    /// All deprecated keychains of the wallet were visited.
    pub fn accept_current_keychain(self) -> (res: PsbtBuilder<AcceptingCurrentKeychainState>)
        ensures
            res@ == self@,
    {
        self.into_state()
    }
}

impl DrainVisit {
    /// The wallet of the keychain was read: `satisfaction_weight` is the most that
    /// satisfying an input of it weighs, `drain_address` where its money goes.
    pub fn wallet_read(
        self,
        satisfaction_weight: usize,
        drain_address: &AddressInfo,
    ) -> (res: DrainBuild)
        requires
            self.builder@.fee_rate is Some,
        ensures
            res.builder@ == self.builder@,
            res.keychain_id == self.keychain_id,
            res.satisfaction_weight == satisfaction_weight,
            res.plan@ == self.builder@.drain_plan(
                self.keychain_id,
                drain_address.address.script(),
            ),
            res.plan.drain_wallet,
            res.plan.drain_to matches Some(script) && script@ == drain_address.address.script(),
    {
        let plan = TxPlan {
            fee_rate: self.builder.fee_rate.unwrap(),
            unspendable: self.builder.reserved_of(self.keychain_id),
            recipients: Vec::new(),
            foreign_utxos: Vec::new(),
            drain_wallet: true,
            drain_to: Some(drain_address.address.script_pubkey()),
            sighash: Some(DEFAULT_SIGHASH_TYPE),
            ordering: TxOrdering::Default,
        };
        proof {
            let planned = self.builder@.drain_plan(
                self.keychain_id,
                drain_address.address.script(),
            );
            assert(plan@.recipients =~= planned.recipients);
            assert(plan@ =~= planned);
        }
        DrainBuild {
            builder: self.builder,
            keychain_id: self.keychain_id,
            satisfaction_weight,
            plan,
        }
    }
}

/// A deprecated keychain was emptied: what holds then.
pub proof fn lemma_drained(
    builder: BuilderView,
    keychain: KeychainId,
    satisfaction_weight: usize,
    psbt: Psbt,
)
    requires
        builder.well_formed(),
    ensures
        builder.drained(keychain, satisfaction_weight, psbt).well_formed(),
{
    let now = builder.drained(keychain, satisfaction_weight, psbt);
    let inputs = psbt.inputs@;
    lemma_weigh_inputs(builder.input_weights, inputs, satisfaction_weight, inputs.len());
    assert(inputs.take(inputs.len() as int) =~= inputs);
    assert(now.book() == builder.book());
    assert(now.inputs_weighed());
}

impl DrainBuild {
    /// The transaction was built.
    pub fn finished(self, psbt: Psbt) -> (res: PsbtBuilder<AcceptingDeprecatedKeychainState>)
        ensures
            res@ == self.builder@.drained(self.keychain_id, self.satisfaction_weight, psbt),
            self.builder@.well_formed() ==> res@.well_formed(),
    {
        let mut builder = self.builder;
        note_weights(&mut builder.input_weights, &psbt.inputs, self.satisfaction_weight);
        builder.current_wallet_psbts.push((self.keychain_id, psbt));
        proof {
            let before = self.builder@;
            let now = before.drained(self.keychain_id, self.satisfaction_weight, psbt);
            assert(builder@ =~= now);
            if before.well_formed() {
                lemma_drained(before, self.keychain_id, self.satisfaction_weight, psbt);
            }
        }
        builder
    }
}

} // verus!
