use bdk::bitcoin::hashes;
use bdk::bitcoin::secp256k1::Secp256k1;
use bdk::bitcoin::util::address::Payload as OutsidePayload;
use bdk::bitcoin::util::bip32::{ExtendedPrivKey, ExtendedPubKey};
use bdk::bitcoin::{OutPoint as OutsideOutPoint, PackedLockTime, Script, Transaction, TxIn};
use bdk::database::{BatchOperations, MemoryDatabase, SyncTime};
use bdk::wallet::tx_builder::TxOrdering as OutsideOrdering;
use bdk::wallet::AddressIndex;
use bdk::{BlockTime, FeeRate, KeychainKind as OutsideKind, LocalUtxo, TransactionDetails, Wallet};
use bria_wallet::builder::current::{CurrentVisit, TrialOutcome};
use bria_wallet::builder::deprecated::DeprecatedVisit;
use bria_wallet::builder::PsbtBuilder;
use bria_wallet::keychain::{AddressRequest, KeychainWallet};
use bria_wallet::keychain::{ToExternalDescriptor, ToInternalDescriptor};
use bria_wallet::primitives::{KeychainKind, Network, OutPoint, Satoshis, Txid};
use bria_wallet::psbt::{BuiltTx, Psbt, PsbtInput, TxOrdering, TxOut, TxPayout, TxPlan};
use bria_wallet::script::{Address, AddressInfo, Payload};

const KEYS: [&str; 4] = [
    "0279be667ef9dcbbac55a06295ce870b07029bfcdb2dce28d959f2815b16f81798",
    "02c6047f9441ed7d6d3045406e95c07cd85c778e4b8cef3ca7abac09b95c709ee5",
    "02f9308a019258c31049344f85f89d5229b531c845836f99b08601f113bce036f9",
    "02e493dbf1c10d80f3581e4904930b1404cc6c13900ee0758474fa94abe8c4cd13",
];

fn open(external: usize, db: MemoryDatabase) -> Wallet<MemoryDatabase> {
    Wallet::new(
        format!("wpkh({})", KEYS[external]).as_str(),
        Some(format!("wpkh({})", KEYS[external + 1]).as_str()),
        bdk::bitcoin::Network::Regtest,
        db,
    )
    .unwrap()
}

fn funded(external: usize, value: u64) -> (Wallet<MemoryDatabase>, OutsideOutPoint) {
    let script = open(external, MemoryDatabase::new())
        .get_address(AddressIndex::New)
        .unwrap()
        .script_pubkey();
    let mut input = TxIn::default();
    input.previous_output.vout = 0;
    let txout = bdk::bitcoin::TxOut { value, script_pubkey: script.clone() };
    let tx = Transaction {
        version: 1,
        lock_time: PackedLockTime::ZERO,
        input: vec![input],
        output: vec![txout.clone()],
    };
    let time = BlockTime { height: 99, timestamp: 0 };
    let outpoint = OutsideOutPoint { txid: tx.txid(), vout: 0 };
    let mut db = MemoryDatabase::new();
    db.set_script_pubkey(&script, OutsideKind::External, 0).unwrap();
    db.set_sync_time(SyncTime { block_time: BlockTime { height: 100, timestamp: 0 } }).unwrap();
    db.set_tx(&TransactionDetails {
        txid: tx.txid(),
        transaction: Some(tx),
        received: value,
        sent: 0,
        fee: Some(0),
        confirmation_time: Some(time),
    })
    .unwrap();
    db.set_utxo(&LocalUtxo { outpoint, txout, keychain: OutsideKind::External, is_spent: false })
        .unwrap();
    (open(external, db), outpoint)
}

fn halves(txid: bdk::bitcoin::Txid) -> Txid {
    let bytes: [u8; 32] = hashes::Hash::into_inner(txid);
    let mut high = [0; 16];
    let mut low = [0; 16];
    high.copy_from_slice(&bytes[..16]);
    low.copy_from_slice(&bytes[16..]);
    Txid { high: u128::from_be_bytes(high), low: u128::from_be_bytes(low) }
}

fn inside(outpoint: OutsideOutPoint) -> OutPoint {
    OutPoint { txid: halves(outpoint.txid), vout: outpoint.vout }
}

fn outside(outpoint: OutPoint) -> OutsideOutPoint {
    let mut bytes = [0; 32];
    bytes[..16].copy_from_slice(&outpoint.txid.high.to_be_bytes());
    bytes[16..].copy_from_slice(&outpoint.txid.low.to_be_bytes());
    OutsideOutPoint { txid: hashes::Hash::from_inner(bytes), vout: outpoint.vout }
}

fn build(wallet: &Wallet<MemoryDatabase>, plan: &TxPlan) -> Result<BuiltTx, bdk::Error> {
    let mut builder = wallet.build_tx();
    builder.fee_rate(plan.fee_rate);
    for out in &plan.unspendable {
        builder.add_unspendable(outside(*out));
    }
    for recipient in &plan.recipients {
        builder.add_recipient(Script::from(recipient.script_pubkey.clone()), recipient.amount);
    }
    for utxo in &plan.foreign_utxos {
        builder.add_foreign_utxo(
            outside(utxo.outpoint),
            utxo.details.clone(),
            utxo.satisfaction_weight,
        )?;
    }
    if plan.drain_wallet {
        builder.drain_wallet();
    }
    if let Some(script) = &plan.drain_to {
        builder.drain_to(Script::from(script.clone()));
    }
    if plan.sighash.is_some() {
        builder.sighash(bdk::bitcoin::EcdsaSighashType::All.into());
    }
    if plan.ordering == TxOrdering::Bip69Lexicographic {
        builder.ordering(OutsideOrdering::Bip69Lexicographic);
    }
    let (psbt, details) = builder.finish()?;
    let inputs = psbt
        .unsigned_tx
        .input
        .iter()
        .zip(psbt.inputs.iter())
        .map(|(input, details)| PsbtInput {
            previous_output: inside(input.previous_output),
            details: details.clone(),
        })
        .collect();
    let outputs = psbt
        .unsigned_tx
        .output
        .iter()
        .map(|out| TxOut { script_pubkey: out.script_pubkey.to_bytes(), value: out.value })
        .collect();
    Ok(BuiltTx {
        psbt: Psbt { inputs, outputs, unsigned: psbt },
        fee: details.fee.unwrap(),
        txid: halves(details.txid),
    })
}

fn change(wallet: &Wallet<MemoryDatabase>) -> (usize, AddressInfo) {
    let weight = wallet
        .get_descriptor_for_keychain(OutsideKind::External)
        .max_satisfaction_weight()
        .unwrap();
    let info = wallet.get_internal_address(AddressIndex::LastUnused).unwrap();
    let payload = match &info.address.payload {
        OutsidePayload::WitnessProgram { version, program } => {
            Payload::WitnessProgram { version: version.to_num(), program: program.clone() }
        }
        _ => panic!("not a witness program"),
    };
    let address = Address::new(Network::Regtest, payload).unwrap();
    (weight, AddressInfo { index: info.index, address, keychain: KeychainKind::Internal })
}

fn payout(id: u128, n: u8, sats: u64) -> TxPayout {
    let payload = Payload::WitnessProgram { version: 0, program: vec![n; 20] };
    let address = Address::new(Network::Regtest, payload).unwrap();
    (id, address, Satoshis::from_output_value(sats))
}

#[test]
fn payouts_are_paid_from_real_wallets() {
    let (deprecated, old_utxo) = funded(2, 40_000);
    let (current, new_utxo) = funded(0, 100_000);
    let payouts = vec![payout(1, 1, 60_000), payout(2, 2, 70_000), payout(3, 3, 50_000)];
    let builder = PsbtBuilder::new()
        .consolidate_deprecated_keychains(true)
        .fee_rate(FeeRate::from_sat_per_vb(1.0))
        .accept_wallets()
        .wallet_payouts(1, payouts);

    let DeprecatedVisit::Drain(visit) = builder.visit_bdk_wallet(10) else {
        panic!("skipped");
    };
    let (weight, address) = change(&deprecated);
    let drain = visit.wallet_read(weight, &address);
    let drained = build(&deprecated, &drain.plan).unwrap();
    let builder = drain.finished(drained.psbt).accept_current_keychain();

    let (weight, address) = change(&current);
    let mut visit = builder.visit_bdk_wallet(11, weight, address);
    let builder = loop {
        visit = match visit {
            CurrentVisit::Trial(trial) => {
                let outcome = match build(&current, &trial.plan) {
                    Ok(_) => TrialOutcome::Built,
                    Err(bdk::Error::InsufficientFunds { .. }) => TrialOutcome::InsufficientFunds,
                    Err(error) => TrialOutcome::Failed(error),
                };
                match trial.trial_finished(outcome) {
                    Ok(visit) => visit,
                    Err(_) => panic!("trial failed"),
                }
            }
            CurrentVisit::Build(wallet_build) => {
                let built = build(&current, &wallet_build.plan).unwrap();
                assert!(wallet_build.totals_fit(&built));
                break wallet_build.finished(built);
            }
            CurrentVisit::Unfunded(_) => panic!("unfunded"),
        };
    };
    assert!(builder.outputs_accounted_for());
    let done = builder.finish();

    let total = &done.wallet_totals[&1];
    assert_eq!(total.input_satoshis.into_inner(), 140_000);
    assert_eq!(total.output_satoshis.into_inner(), 130_000);
    assert_eq!(total.fee_satoshis.into_inner(), done.fee_satoshis.into_inner());
    assert_eq!(done.included_utxos[&1][&10], vec![inside(old_utxo)]);
    assert_eq!(done.included_utxos[&1][&11], vec![inside(new_utxo)]);
    assert_eq!(done.included_payouts[&1].len(), 2);

    let psbt = done.psbt.as_ref().unwrap();
    let txid = psbt.unsigned.unsigned_tx.txid();
    assert_eq!(done.tx_id, Some(halves(txid)));
    for ((_, address, sats), vout) in &done.included_payouts[&1] {
        let output = &psbt.unsigned.unsigned_tx.output[*vout as usize];
        assert_eq!(output.script_pubkey.to_bytes(), address.script_pubkey());
        assert_eq!(output.value as i128, sats.into_inner());
    }
    let change = total.change_outpoint.unwrap();
    let output = &psbt.unsigned.unsigned_tx.output[change.vout as usize];
    assert_eq!(output.value as i128, total.change_satoshis.into_inner());
    assert_eq!(output.script_pubkey.to_bytes(), total.change_address.address.script_pubkey());
}

struct Xpub(ExtendedPubKey);

impl ToExternalDescriptor for Xpub {
    fn to_external_descriptor(&self) -> String {
        format!("wpkh({}/0/*)", self.0)
    }
}

impl ToInternalDescriptor for Xpub {
    fn to_internal_descriptor(&self) -> String {
        format!("wpkh({}/1/*)", self.0)
    }
}

fn ask(wallet: &Wallet<MemoryDatabase>, request: &AddressRequest) -> bdk::wallet::AddressInfo {
    assert_eq!(request.index, bria_wallet::keychain::AddressIndex::New);
    match request.keychain {
        KeychainKind::External => wallet.get_address(AddressIndex::New),
        KeychainKind::Internal => wallet.get_internal_address(AddressIndex::New),
    }
    .unwrap()
}

#[test]
fn new_addresses_count_up_on_their_own_chain() {
    let secret = ExtendedPrivKey::new_master(bdk::bitcoin::Network::Regtest, &[7; 32]).unwrap();
    let xpub = ExtendedPubKey::from_priv(&Secp256k1::new(), &secret);
    let keychain = KeychainWallet::new(Network::Regtest, 9, Xpub(xpub));
    let params = keychain.with_wallet();
    let wallet = Wallet::new(
        params.external_descriptor.as_str(),
        Some(params.internal_descriptor.as_str()),
        bdk::bitcoin::Network::Regtest,
        MemoryDatabase::new(),
    )
    .unwrap();
    let first = ask(&wallet, &keychain.new_external_address());
    let change = ask(&wallet, &keychain.new_internal_address());
    let second = ask(&wallet, &keychain.new_external_address());
    let more_change = ask(&wallet, &keychain.new_internal_address());
    assert_eq!(second.index, first.index + 1);
    assert_eq!(more_change.index, change.index + 1);
    assert_ne!(first.address, second.address);
    assert_ne!(change.address, more_change.address);
    assert_eq!(first.keychain, OutsideKind::External);
    assert_eq!(change.keychain, OutsideKind::Internal);
}
