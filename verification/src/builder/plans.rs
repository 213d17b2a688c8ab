//! The parts that plans are put together from.

use vstd::prelude::*;

use crate::builder_model::{foreign_inputs, foreign_psbts, is_payable, output_recipients};
use crate::builder_model::{payout_recipients, weigh_inputs, weights_cover};
use crate::outpoints::OutPointMap;
use crate::primitives::{KeychainId, OutPoint};
use crate::psbt::{ForeignUtxo, Psbt, PsbtInput, Recipient, TxOut, TxPayout};
use crate::script::copy_script;

verus! {

/// The contents of a list of outputs.
pub(super) open spec fn recipients_view(recipients: Seq<Recipient>) -> Seq<(Seq<u8>, u64)> {
    recipients.map_values(|recipient: Recipient| recipient@)
}

/// The outputs that make the first `n` payouts.
pub(super) fn recipients_of_payouts(payouts: &Vec<TxPayout>, n: usize) -> (res: Vec<Recipient>)
    requires
        n <= payouts@.len(),
        forall|i: int| 0 <= i < n ==> is_payable(#[trigger] payouts@[i]),
    ensures
        recipients_view(res@) == payout_recipients(payouts@.take(n as int)),
{
    let mut res: Vec<Recipient> = Vec::new();
    for i in 0..n
        invariant
            n <= payouts@.len(),
            forall|j: int| 0 <= j < n ==> is_payable(#[trigger] payouts@[j]),
            res@.len() == i,
            forall|j: int|
                0 <= j < i ==> (#[trigger] res@[j])@ == (
                    payouts@[j].1.script(),
                    payouts@[j].2@ as u64,
                ),
    {
        assert(is_payable(payouts@[i as int]));
        let script_pubkey = payouts[i].1.script_pubkey();
        let amount = payouts[i].2.to_output_value();
        res.push(Recipient { script_pubkey, amount });
    }
    assert(recipients_view(res@) =~= payout_recipients(payouts@.take(n as int)));
    res
}

/// Adds the given outputs to a list.
pub(super) fn add_outputs(recipients: &mut Vec<Recipient>, outputs: &Vec<TxOut>)
    ensures
        recipients_view(final(recipients)@) == recipients_view(old(recipients)@)
            + output_recipients(outputs@),
{
    for i in 0..outputs.len()
        invariant
            recipients_view(recipients@) =~= recipients_view(old(recipients)@)
                + output_recipients(outputs@.take(i as int)),
    {
        let script_pubkey = copy_script(&outputs[i].script_pubkey);
        let ghost before = recipients@;
        recipients.push(Recipient { script_pubkey, amount: outputs[i].value });
        proof {
            let last = (outputs@[i as int].script_pubkey@, outputs@[i as int].value);
            assert(recipients_view(recipients@) =~= recipients_view(before).push(last));
            assert(output_recipients(outputs@.take(i + 1)) =~= output_recipients(
                outputs@.take(i as int),
            ).push(last));
        }
    }
    assert(outputs@.take(outputs@.len() as int) =~= outputs@);
}

/// Adds the given inputs to a list of inputs that another wallet owns.
pub(super) fn add_foreign_inputs(
    foreign: &mut Vec<ForeignUtxo>,
    weights: &OutPointMap<usize>,
    inputs: &Vec<PsbtInput>,
)
    requires
        weights_cover(weights@, inputs@),
    ensures
        final(foreign)@ == old(foreign)@ + foreign_inputs(weights@, inputs@),
{
    for i in 0..inputs.len()
        invariant
            weights_cover(weights@, inputs@),
            foreign@ =~= old(foreign)@ + foreign_inputs(weights@, inputs@.take(i as int)),
    {
        let outpoint = inputs[i].previous_output;
        assert(weights@.contains_key(inputs@[i as int].previous_output));
        if let Some(weight) = weights.get(&outpoint) {
            foreign.push(
                ForeignUtxo {
                    outpoint,
                    details: inputs[i].details.clone(),
                    satisfaction_weight: *weight,
                },
            );
        }
    }
    assert(inputs@.take(inputs@.len() as int) =~= inputs@);
}

/// The inputs of the given transactions as inputs that another wallet owns.
pub(super) fn foreign_utxos_of(
    weights: &OutPointMap<usize>,
    psbts: &Vec<(KeychainId, Psbt)>,
) -> (res: Vec<ForeignUtxo>)
    requires
        forall|i: int|
            0 <= i < psbts@.len() ==> weights_cover(weights@, (#[trigger] psbts@[i]).1.inputs@),
    ensures
        res@ == foreign_psbts(weights@, psbts@, psbts@.len()),
{
    let mut res: Vec<ForeignUtxo> = Vec::new();
    for i in 0..psbts.len()
        invariant
            forall|j: int|
                0 <= j < psbts@.len() ==> weights_cover(
                    weights@,
                    (#[trigger] psbts@[j]).1.inputs@,
                ),
            res@ == foreign_psbts(weights@, psbts@, i as nat),
    {
        assert(weights_cover(weights@, psbts@[i as int].1.inputs@));
        add_foreign_inputs(&mut res, weights, &psbts[i].1.inputs);
    }
    res
}

/// Notes the weight of each input.
pub(super) fn note_weights(
    weights: &mut OutPointMap<usize>,
    inputs: &Vec<PsbtInput>,
    weight: usize,
)
    ensures
        final(weights)@ == weigh_inputs(old(weights)@, inputs@, weight, inputs@.len()),
{
    for i in 0..inputs.len()
        invariant
            weights@ == weigh_inputs(old(weights)@, inputs@, weight, i as nat),
    {
        weights.insert(inputs[i].previous_output, weight);
    }
}

/// Noting weights covers the inputs, and what was covered before.
pub(super) proof fn lemma_weigh_inputs(
    weights: Map<OutPoint, usize>,
    inputs: Seq<PsbtInput>,
    weight: usize,
    n: nat,
)
    requires
        n <= inputs.len(),
    ensures
        weights_cover(weigh_inputs(weights, inputs, weight, n), inputs.take(n as int)),
        weights.dom().subset_of(weigh_inputs(weights, inputs, weight, n).dom()),
    decreases n,
{
    if n > 0 {
        lemma_weigh_inputs(weights, inputs, weight, (n - 1) as nat);
        let earlier = inputs.take(n - 1);
        let now = weigh_inputs(weights, inputs, weight, n);
        assert forall|i: int| 0 <= i < n implies now.contains_key(
            (#[trigger] inputs.take(n as int)[i]).previous_output,
        ) by {
            if i < n - 1 {
                assert(earlier[i] == inputs.take(n as int)[i]);
            }
        }
    }
}

} // verus!
