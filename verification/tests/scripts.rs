use bria_wallet::primitives::{KeychainKind, Network, OutPoint, Satoshis, Txid, MAX_SATOSHIS};
use bria_wallet::script::{copy_script, same_script, Address, AddressInfo, Payload};
use std::str::FromStr;

fn witness(version: u8, program: Vec<u8>) -> Option<Address> {
    Address::new(Network::Bitcoin, Payload::WitnessProgram { version, program })
}

#[test]
fn pubkey_hash_script() {
    let address = Address::new(Network::Bitcoin, Payload::PubkeyHash([7; 20])).unwrap();
    let mut expected = vec![0x76, 0xa9, 0x14];
    expected.extend_from_slice(&[7; 20]);
    expected.extend_from_slice(&[0x88, 0xac]);
    assert_eq!(address.script_pubkey(), expected);
    assert_eq!(address.network(), Network::Bitcoin);
    assert!(matches!(address.payload(), Payload::PubkeyHash(hash) if *hash == [7; 20]));
}

#[test]
fn script_hash_script() {
    let address = Address::new(Network::Testnet, Payload::ScriptHash([9; 20])).unwrap();
    let mut expected = vec![0xa9, 0x14];
    expected.extend_from_slice(&[9; 20]);
    expected.push(0x87);
    assert_eq!(address.script_pubkey(), expected);
}

#[test]
fn witness_scripts() {
    let mut expected = vec![0x00, 0x14];
    expected.extend_from_slice(&[1; 20]);
    assert_eq!(witness(0, vec![1; 20]).unwrap().script_pubkey(), expected);

    let mut expected = vec![0x51, 0x20];
    expected.extend_from_slice(&[2; 32]);
    assert_eq!(witness(1, vec![2; 32]).unwrap().script_pubkey(), expected);

    let mut expected = vec![0x60, 40];
    expected.extend_from_slice(&[3; 40]);
    assert_eq!(witness(16, vec![3; 40]).unwrap().script_pubkey(), expected);
}

#[test]
fn invalid_witness_programs_are_no_addresses() {
    assert!(witness(17, vec![0; 20]).is_none());
    assert!(witness(0, vec![0; 1]).is_none());
    assert!(witness(0, vec![0; 41]).is_none());
    assert!(witness(0, vec![0; 2]).is_some());
}

#[test]
fn script_of_a_known_address() {
    // The example address of BIP 173.
    let text = "bc1qw508d6qejxtdg4y5r3zarvary0c5xw7kv8f3t4";
    let parsed = bitcoin::Address::from_str(text).unwrap();
    let program = match &parsed.payload {
        bitcoin::util::address::Payload::WitnessProgram { program, .. } => program.clone(),
        _ => panic!("not a witness program"),
    };
    let address = witness(0, program).unwrap();
    assert_eq!(address.script_pubkey(), parsed.script_pubkey().to_bytes());
    assert_eq!(address.script_pubkey()[..4], [0x00, 0x14, 0x75, 0x1e]);
}

#[test]
fn scripts_are_compared_and_copied() {
    assert!(same_script(&vec![1, 2], &vec![1, 2]));
    assert!(!same_script(&vec![1, 2], &vec![1, 3]));
    assert!(!same_script(&vec![1, 2], &vec![1]));
    assert_eq!(copy_script(&vec![4, 5, 6]), vec![4, 5, 6]);
}

#[test]
fn address_info_keeps_its_place() {
    let info = AddressInfo {
        index: 3,
        address: witness(0, vec![1; 20]).unwrap(),
        keychain: KeychainKind::Internal,
    };
    assert_eq!(info.index, 3);
    assert_eq!(info.keychain, KeychainKind::Internal);
}

#[test]
fn satoshis_arithmetic() {
    let five = Satoshis::from_output_value(5);
    let three = Satoshis::from_output_value(3);
    assert_eq!(five.plus(three).into_inner(), 8);
    assert_eq!(three.minus(five).into_inner(), -2);
    assert!(five.same(Satoshis::from_output_value(5)));
    assert!(!five.same(three));
    assert_eq!(five.to_output_value(), 5);
    assert!(five.is_output_value());
    assert!(!three.minus(five).is_output_value());
    assert_eq!(Satoshis::zero().into_inner(), 0);
}

#[test]
fn satoshis_have_a_limit() {
    assert!(Satoshis::try_new(MAX_SATOSHIS).is_some());
    assert!(Satoshis::try_new(-MAX_SATOSHIS).is_some());
    assert!(Satoshis::try_new(MAX_SATOSHIS + 1).is_none());
    assert!(Satoshis::try_new(-MAX_SATOSHIS - 1).is_none());
    let limit = Satoshis::try_new(u64::MAX as i128 + 1).unwrap();
    assert!(!limit.is_output_value());
}

#[test]
fn outpoints_differ_by_txid_and_vout() {
    let txid = Txid { high: 1, low: 2 };
    assert_eq!(OutPoint { txid, vout: 0 }, OutPoint { txid, vout: 0 });
    assert_ne!(OutPoint { txid, vout: 0 }, OutPoint { txid, vout: 1 });
    assert_ne!(
        OutPoint { txid, vout: 0 },
        OutPoint { txid: Txid { high: 1, low: 3 }, vout: 0 }
    );
}
