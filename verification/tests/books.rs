use bitcoin::psbt::PartiallySignedTransaction;
use bitcoin::{PackedLockTime, Transaction};
use bria_wallet::outpoints::OutPointMap;
use bria_wallet::primitives::{OutPoint, Txid};
use bria_wallet::psbt::{Psbt, PsbtInput};
use bria_wallet::utxo_book::UtxoBook;

fn outpoint(n: u32) -> OutPoint {
    OutPoint { txid: Txid { high: 7, low: n as u128 }, vout: n }
}

fn inputs(numbers: &[u32]) -> Vec<PsbtInput> {
    numbers
        .iter()
        .map(|n| PsbtInput {
            previous_output: outpoint(*n),
            details: bitcoin::psbt::Input::default(),
        })
        .collect()
}

fn psbt(numbers: &[u32]) -> Psbt {
    let unsigned = PartiallySignedTransaction::from_unsigned_tx(Transaction {
        version: 1,
        lock_time: PackedLockTime::ZERO,
        input: vec![],
        output: vec![],
    })
    .unwrap();
    Psbt { inputs: inputs(numbers), outputs: vec![], unsigned }
}

#[test]
fn outpoint_map_keeps_the_last_value() {
    let mut map: OutPointMap<usize> = OutPointMap::new();
    assert!(map.get(&outpoint(1)).is_none());
    assert!(map.insert(outpoint(1), 10));
    assert!(map.insert(outpoint(2), 20));
    assert!(!map.insert(outpoint(1), 11));
    assert_eq!(map.get(&outpoint(1)), Some(&11));
    assert_eq!(map.get(&outpoint(2)), Some(&20));
    assert!(map.contains_key(&outpoint(2)));
    assert!(!map.contains_key(&outpoint(3)));
}

#[test]
fn book_lists_by_wallet_and_keychain() {
    let mut book = UtxoBook::new();
    book.include_utxo(1, 10, outpoint(1));
    book.include_utxo(1, 10, outpoint(2));
    book.include_utxo(1, 11, outpoint(3));
    book.include_utxo(2, 20, outpoint(4));
    assert_eq!(book.utxos[&1][&10], vec![outpoint(1), outpoint(2)]);
    assert_eq!(book.utxos[&1][&11], vec![outpoint(3)]);
    assert_eq!(book.utxos[&2][&20], vec![outpoint(4)]);
    assert_eq!(book.keychains[&10], 1);
    assert_eq!(book.keychains[&11], 1);
    assert_eq!(book.keychains[&20], 2);
    assert!(book.included.contains_key(&outpoint(4)));
}

#[test]
fn book_includes_whole_transactions() {
    let mut book = UtxoBook::new();
    book.include_psbts(5, &vec![(1, psbt(&[1, 2])), (2, psbt(&[])), (3, psbt(&[3]))]);
    assert_eq!(book.utxos[&5][&1], vec![outpoint(1), outpoint(2)]);
    assert_eq!(book.utxos[&5][&3], vec![outpoint(3)]);
    assert!(!book.utxos[&5].contains_key(&2));
    assert!(!book.keychains.contains_key(&2));
}

#[test]
fn book_attributes_only_new_inputs() {
    let mut book = UtxoBook::new();
    book.include_inputs(1, 10, &inputs(&[1, 2]));
    book.attribute_inputs(1, 11, &inputs(&[2, 3, 1, 4, 3]));
    assert_eq!(book.utxos[&1][&10], vec![outpoint(1), outpoint(2)]);
    assert_eq!(book.utxos[&1][&11], vec![outpoint(3), outpoint(4)]);
}

#[test]
fn book_without_new_inputs_names_no_keychain() {
    let mut book = UtxoBook::new();
    book.include_inputs(1, 10, &inputs(&[1]));
    book.attribute_inputs(2, 20, &inputs(&[1]));
    assert!(!book.utxos.contains_key(&2));
    assert!(!book.keychains.contains_key(&20));
}
