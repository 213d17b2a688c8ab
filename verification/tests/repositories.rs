use bria_wallet::address::{Addresses, NewAddress, PgKeychainKind};
use bria_wallet::fee_estimation::{MempoolSpaceClient, RecommendedFeesResponse};
use bria_wallet::keychain::{AddressIndex, KeychainWallet};
use bria_wallet::keychain::{ToExternalDescriptor, ToInternalDescriptor};
use bria_wallet::primitives::{KeychainKind, Network, TxPriority};
use bria_wallet::signer_error::SigningClientError;
use bria_wallet::wallet_repo::{group_events, EntityEvents, NewWallet, WalletEventRow};
use bria_wallet::wallet_repo::{WalletLookupError, Wallets};

fn new_address(kind: KeychainKind, address_idx: u32) -> NewAddress<i32> {
    NewAddress {
        id: 1,
        address_string: "bc1q".to_string(),
        profile_id: 2,
        keychain_id: 3,
        kind,
        address_idx,
        external_id: "ext".to_string(),
        metadata: Some(5),
    }
}

#[test]
fn address_row_has_the_fields() {
    let row = Addresses::persist_address(new_address(KeychainKind::External, 17));
    assert_eq!(row.id, 1);
    assert_eq!(row.address_string, "bc1q");
    assert_eq!(row.profile_id, 2);
    assert_eq!(row.keychain_id, 3);
    assert_eq!(row.kind, PgKeychainKind::External);
    assert_eq!(row.address_index, 17);
    assert_eq!(row.external_id, "ext");
    assert_eq!(row.metadata, Some(5));
}

#[test]
fn address_index_wraps_round() {
    let row = Addresses::persist_address(new_address(KeychainKind::Internal, u32::MAX));
    assert_eq!(row.kind, PgKeychainKind::Internal);
    assert_eq!(row.address_index, -1);
    let row = Addresses::persist_address(new_address(KeychainKind::Internal, 0x8000_0000));
    assert_eq!(row.address_index, i32::MIN);
    let row = Addresses::persist_address(new_address(KeychainKind::Internal, 0x7fff_ffff));
    assert_eq!(row.address_index, i32::MAX);
}

#[test]
fn fee_rate_follows_the_priority() {
    let fees = RecommendedFeesResponse {
        fastest_fee: 50,
        half_hour_fee: 40,
        hour_fee: 30,
        economy_fee: 20,
        minimum_fee: 10,
    };
    assert_eq!(MempoolSpaceClient::fee_rate(TxPriority::NextBlock, &fees), 50);
    assert_eq!(MempoolSpaceClient::fee_rate(TxPriority::OneHour, &fees), 30);
    assert_eq!(MempoolSpaceClient::fee_rate(TxPriority::Economy, &fees), 20);
}

struct Descriptor(&'static str);

impl ToExternalDescriptor for Descriptor {
    fn to_external_descriptor(&self) -> String {
        format!("wpkh({}/0/*)", self.0)
    }
}

impl ToInternalDescriptor for Descriptor {
    fn to_internal_descriptor(&self) -> String {
        format!("wpkh({}/1/*)", self.0)
    }
}

#[test]
fn keychain_wallet_asks_for_addresses() {
    let keychain = KeychainWallet::new(Network::Regtest, 9, Descriptor("xpub"));
    let params = keychain.with_wallet();
    assert_eq!(params.external_descriptor, "wpkh(xpub/0/*)");
    assert_eq!(params.internal_descriptor, "wpkh(xpub/1/*)");
    assert_eq!(params.network, Network::Regtest);
    assert_eq!(params.keychain_id, 9);

    let request = keychain.new_external_address();
    assert_eq!(request.keychain, KeychainKind::External);
    assert_eq!(request.index, AddressIndex::New);
    assert_eq!(request.wallet.external_descriptor, "wpkh(xpub/0/*)");

    let request = keychain.new_internal_address();
    assert_eq!(request.keychain, KeychainKind::Internal);
    assert_eq!(request.index, AddressIndex::New);
    assert_eq!(request.wallet.internal_descriptor, "wpkh(xpub/1/*)");
}

fn row(id: u128, sequence: i32, event: &'static str) -> WalletEventRow<&'static str> {
    WalletEventRow { id, sequence, event }
}

fn join(network: Network, events: EntityEvents<&'static str>) -> Result<String, String> {
    let mut text = format!("{:?}", network);
    for (sequence, event) in events.events {
        if event == "bad" {
            return Err(format!("bad event {}", sequence));
        }
        text = format!("{} {}{}", text, sequence, event);
    }
    Ok(text)
}

#[test]
fn events_are_grouped_in_order() {
    let groups = group_events(vec![row(1, 1, "a"), row(2, 1, "x"), row(1, 2, "b")]);
    assert_eq!(groups.len(), 2);
    assert_eq!(groups[&1].events, vec![(1, "a"), (2, "b")]);
    assert_eq!(groups[&2].events, vec![(1, "x")]);
}

#[test]
fn negative_sequence_numbers_wrap_round() {
    let groups = group_events(vec![row(1, -1, "a")]);
    assert_eq!(groups[&1].events, vec![(usize::MAX, "a")]);
}

#[test]
fn wallet_is_found_by_name() {
    let wallets = Wallets::new(Network::Signet);
    let found = wallets.find_by_name(vec![row(1, 1, "a"), row(1, 2, "b")], join);
    assert!(matches!(found, Ok(text) if text == "Signet 1a 2b"));
}

#[test]
fn name_without_rows_is_not_found() {
    let wallets = Wallets::new(Network::Signet);
    let found = wallets.find_by_name(vec![], join);
    assert!(matches!(found, Err(WalletLookupError::WalletNotFound)));
}

#[test]
fn bad_events_of_a_name_are_an_error() {
    let wallets = Wallets::new(Network::Signet);
    let found = wallets.find_by_name(vec![row(1, 1, "a"), row(1, 2, "bad")], join);
    assert!(matches!(found, Err(WalletLookupError::Entity(text)) if text == "bad event 2"));
}

#[test]
fn wallets_are_found_by_ids() {
    let wallets = Wallets::new(Network::Bitcoin);
    let rows = vec![row(1, 1, "a"), row(1, 2, "b"), row(2, 1, "c")];
    let found = wallets.find_by_ids(rows, join).unwrap();
    assert_eq!(found.len(), 2);
    assert_eq!(found[&1], "Bitcoin 1a 2b");
    assert_eq!(found[&2], "Bitcoin 1c");
}

#[test]
fn one_bad_wallet_fails_the_search() {
    let wallets = Wallets::new(Network::Bitcoin);
    let rows = vec![row(1, 1, "a"), row(2, 7, "bad")];
    assert_eq!(wallets.find_by_ids(rows, join).unwrap_err(), "bad event 7");
}

#[test]
fn wallet_is_found_by_id() {
    let wallets = Wallets::new(Network::Bitcoin);
    let found = wallets.find_by_id(2, vec![row(2, 1, "c")], join);
    assert!(matches!(found, Ok(text) if text == "Bitcoin 1c"));
    let found = wallets.find_by_id(3, vec![row(2, 1, "c")], join);
    assert!(matches!(found, Err(WalletLookupError::WalletNotFound)));
    let found = wallets.find_by_id(2, vec![row(2, 4, "bad")], join);
    assert!(matches!(found, Err(WalletLookupError::Entity(text)) if text == "bad event 4"));
}

#[test]
fn signing_errors_have_their_messages() {
    let error = SigningClientError::CouldNotConnect("refused".to_string());
    assert_eq!(error.message(), "SigningClientError - CouldNotConnect: refused");
    let error = SigningClientError::RemoteCallFailure("no".to_string());
    assert_eq!(error.message(), "SigningClientError - RemoteCallFailure: no");
}

#[test]
fn outside_errors_become_signing_errors() {
    let inner = base64::DecodeError::InvalidLength;
    let text = inner.to_string();
    let error = SigningClientError::from(inner);
    assert!(matches!(error, SigningClientError::Decode(_)));
    assert_eq!(error.message(), format!("SigningClientError - Decode: {}", text));

    let inner = std::io::Error::new(std::io::ErrorKind::Other, "broken pipe");
    let error = SigningClientError::from(inner);
    assert_eq!(error.message(), "SigningClientError - IO: broken pipe");

    let inner = bitcoin::consensus::encode::Error::ParseFailed("short");
    let text = inner.to_string();
    let error = SigningClientError::from(inner);
    assert_eq!(error.label(), "SigningClientError - Encode: ");
    assert_eq!(error.message(), format!("SigningClientError - Encode: {}", text));
}

#[test]
fn created_wallet_is_found_again() {
    let wallets = Wallets::new(Network::Testnet);
    let create = || {
        wallets.create_in_tx(NewWallet {
            id: 5,
            account_id: 6,
            name: "hot".to_string(),
            initial_events: vec!["a", "b"],
        })
    };
    let (wallet, rows) = create();
    assert_eq!((wallet.id, wallet.account_id, wallet.name.as_str()), (5, 6, "hot"));
    assert_eq!(rows.iter().map(|row| row.sequence).collect::<Vec<_>>(), vec![1, 2]);
    assert!(rows.iter().all(|row| row.id == 5));
    assert!(matches!(wallets.find_by_name(rows, join), Ok(text) if text == "Testnet 1a 2b"));
    let found = wallets.find_by_id(5, create().1, join);
    assert!(matches!(found, Ok(text) if text == "Testnet 1a 2b"));
}
