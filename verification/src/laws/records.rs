//! What holds of amounts, fee rates, scripts, address records and errors of signers.

use bitcoin::consensus::encode;
use vstd::arithmetic::power2::{lemma2_to64, lemma_pow2_adds, pow2};
use vstd::prelude::*;
use vstd::string::to_string_from_display_ensures;

use crate::address::{AddressRow, Addresses, NewAddress, PgKeychainKind};
use crate::decimal::DecimalParts;
use crate::fee_estimation::{MempoolSpaceClient, RecommendedFeesResponse};
use crate::primitives::{is_amount, KeychainKind, Network, Satoshis, TxPriority, MAX_SATOSHIS};
use crate::script::{copy_script, same_script, Address, Payload};
use crate::signer_error::SigningClientError;

verus! {

/// An amount is a whole number whose size 96 bits hold.
pub proof fn law_amounts_have_96_bits(amount: int)
    ensures
        is_amount(amount) <==> -pow2(96) < amount < pow2(96),
        MAX_SATOSHIS + 1 == pow2(96),
{
    lemma2_to64();
    lemma_pow2_adds(64, 32);
    assert(pow2(96) == 0x1_0000_0000_0000_0000_0000_0000) by (nonlinear_arith)
        requires
            pow2(96) == pow2(64) * pow2(32),
            pow2(64) == 0x1_0000_0000_0000_0000,
            pow2(32) == 0x1_0000_0000,
    ;
}

/// A decimal number has a mantissa whose size 96 bits hold and at most 28 digits behind
/// the point.
pub proof fn law_decimals_have_96_bits(number: DecimalParts)
    ensures
        number.valid() <==> -pow2(96) < number.mantissa < pow2(96) && number.scale <= 28,
{
    law_amounts_have_96_bits(number.mantissa as int);
}

/// Amounts are made of numbers and turned into numbers without loss, and a number is
/// refused only where 96 bits do not hold it.
pub proof fn law_amounts_are_numbers(number: i128, value: u64, made: Option<Satoshis>)
    requires
        call_ensures(Satoshis::try_new, (number,), made),
    ensures
        made is Some <==> -pow2(96) < number < pow2(96),
        made matches Some(sats) ==> sats@ == number && forall|back: i128|
            call_ensures(Satoshis::into_inner, (sats,), back) ==> back == number,
        forall|sats: Satoshis| #[trigger]
            call_ensures(Satoshis::from_output_value, (value,), sats) ==> sats@ == value,
        forall|sats: Satoshis| #[trigger] call_ensures(Satoshis::zero, (), sats) ==> sats@ == 0,
{
    law_amounts_have_96_bits(number as int);
}

/// Amounts add up, are taken away and are compared like numbers, and are the value of an
/// output exactly where 64 bits hold them.
pub proof fn law_amounts_add_up(
    left: Satoshis,
    right: Satoshis,
    sum: Satoshis,
    difference: Satoshis,
    same: bool,
    fits: bool,
    value: u64,
)
    requires
        call_ensures(Satoshis::plus, (left, right), sum),
        call_ensures(Satoshis::minus, (left, right), difference),
        call_ensures(Satoshis::same, (left, right), same),
        call_ensures(Satoshis::is_output_value, (left,), fits),
        call_ensures(Satoshis::to_output_value, (left,), value),
    ensures
        sum@ - right@ == left@,
        difference@ + right@ == left@,
        same <==> left@ - right@ == 0,
        fits <==> 0 <= left@ < pow2(64),
        value == left@,
{
    lemma2_to64();
}

/// Each priority has its fee rate: the fastest, that of an hour, and the economical one.
pub proof fn law_priorities_have_their_fee_rates(
    priority: TxPriority,
    fees: RecommendedFeesResponse,
    rate: u64,
)
    requires
        call_ensures(MempoolSpaceClient::fee_rate, (priority, &fees), rate),
    ensures
        priority is NextBlock ==> rate == fees.fastest_fee,
        priority is OneHour ==> rate == fees.hour_fee,
        priority is Economy ==> rate == fees.economy_fee,
{
}

/// The record of an address holds what the address was given as. Its number keeps its low
/// 32 bits, read with a sign, so that no two numbers are recorded alike.
pub proof fn law_addresses_are_recorded<M>(address: NewAddress<M>, row: AddressRow<M>)
    requires
        call_ensures(Addresses::persist_address::<M>, (address,), row),
    ensures
        row.id == address.id,
        row.address_string == address.address_string,
        row.profile_id == address.profile_id,
        row.keychain_id == address.keychain_id,
        row.external_id == address.external_id,
        row.metadata == address.metadata,
        address.kind is External ==> row.kind is External,
        address.kind is Internal ==> row.kind is Internal,
        row.address_index as int % 0x1_0000_0000 == address.address_idx,
        address.address_idx < 0x8000_0000 ==> row.address_index == address.address_idx,
        address.address_idx >= 0x8000_0000 ==> row.address_index < 0,
{
}

/// The two chains of a keychain are recorded as the two chains of an address.
pub proof fn law_chains_are_recorded(kind: KeychainKind, recorded: PgKeychainKind)
    requires
        call_ensures(<PgKeychainKind as From<KeychainKind>>::from, (kind,), recorded),
    ensures
        recorded == PgKeychainKind::External <==> kind == KeychainKind::External,
        recorded == PgKeychainKind::Internal <==> kind == KeychainKind::Internal,
{
}

/// There is an address for the hash of a key and for the hash of a script, and for a
/// witness program exactly if its version is at most 16 and it has 2 to 40 bytes. The
/// address keeps the network and the payload.
pub proof fn law_addresses_have_payloads(
    network: Network,
    payload: Payload,
    made: Option<Address>,
)
    requires
        call_ensures(Address::new, (network, payload), made),
    ensures
        payload is PubkeyHash ==> made is Some,
        payload is ScriptHash ==> made is Some,
        payload matches Payload::WitnessProgram { version, program } ==> (made is Some
            <==> version <= 16 && 2 <= program@.len() && program@.len() <= 40),
        made matches Some(address) ==> address.spec_network() == network
            && address.spec_payload() == payload,
{
}

/// What an address tells of itself is what it was made of.
pub proof fn law_addresses_tell_the_truth(
    network: Network,
    payload: Payload,
    address: Address,
    told_network: Network,
    told_payload: Payload,
    script: Vec<u8>,
)
    requires
        call_ensures(Address::new, (network, payload), Some(address)),
        call_ensures(Address::network, (&address,), told_network),
        call_ensures(Address::payload, (&address,), &told_payload),
        call_ensures(Address::script_pubkey, (&address,), script),
    ensures
        told_network == network,
        told_payload == payload,
        script@ == payload.script(),
        script@ == address.script(),
{
}

/// The script of an address is that of its payload, whatever the network, and holds the
/// hash or the program that the address commits to.
pub proof fn law_scripts_hold_the_payload(address: Address)
    ensures
        address.script() == address.spec_payload().script(),
        address.spec_payload() matches Payload::PubkeyHash(hash) ==> {
            &&& address.script().len() == 25
            &&& address.script().subrange(3, 23) == hash@
            &&& address.script()[0] == 0x76
            &&& address.script()[1] == 0xa9
            &&& address.script()[2] == 20
            &&& address.script()[23] == 0x88
            &&& address.script()[24] == 0xac
        },
        address.spec_payload() matches Payload::ScriptHash(hash) ==> {
            &&& address.script().len() == 23
            &&& address.script().subrange(2, 22) == hash@
            &&& address.script()[0] == 0xa9
            &&& address.script()[1] == 20
            &&& address.script()[22] == 0x87
        },
        address.spec_payload() matches Payload::WitnessProgram { version, program } ==> {
            &&& address.script().len() == program@.len() + 2
            &&& address.script().skip(2) == program@
            &&& version == 0 ==> address.script()[0] == 0
            &&& 1 <= version <= 16 ==> address.script()[0] == 0x50 + version
            &&& program@.len() <= 40 ==> address.script()[1] == program@.len()
        },
{
    match address.spec_payload() {
        Payload::PubkeyHash(hash) => {
            assert(hash@.len() == 20);
            assert(address.script().subrange(3, 23) =~= hash@);
        },
        Payload::ScriptHash(hash) => {
            assert(hash@.len() == 20);
            assert(address.script().subrange(2, 22) =~= hash@);
        },
        Payload::WitnessProgram { version, program } => {
            assert(address.script().skip(2) =~= program@);
        },
    }
}

/// Scripts are the same exactly if they have the same bytes, and a copy has all of them.
pub proof fn law_scripts_are_their_bytes(left: Vec<u8>, right: Vec<u8>, same: bool, copy: Vec<u8>)
    requires
        call_ensures(same_script, (&left, &right), same),
        call_ensures(copy_script, (&left,), copy),
    ensures
        same <==> left@.len() == right@.len() && forall|i: int|
            0 <= i < left@.len() ==> #[trigger] left@[i] == right@[i],
        copy@.len() == left@.len(),
        forall|i: int| 0 <= i < left@.len() ==> #[trigger] copy@[i] == left@[i],
{
    if left@.len() == right@.len() && forall|i: int|
        0 <= i < left@.len() ==> #[trigger] left@[i] == right@[i] {
        assert(left@ =~= right@);
    }
}

/// An error of another library becomes the error of the signer that is named after it,
/// with nothing lost.
pub proof fn law_signer_errors_keep_their_cause(
    encoding: encode::Error,
    decoding: base64::DecodeError,
    io: std::io::Error,
    of_encoding: SigningClientError,
    of_decoding: SigningClientError,
    of_io: SigningClientError,
)
    requires
        call_ensures(
            <SigningClientError as From<encode::Error>>::from,
            (encoding,),
            of_encoding,
        ),
        call_ensures(
            <SigningClientError as From<base64::DecodeError>>::from,
            (decoding,),
            of_decoding,
        ),
        call_ensures(<SigningClientError as From<std::io::Error>>::from, (io,), of_io),
    ensures
        of_encoding == SigningClientError::Encode(encoding),
        of_decoding == SigningClientError::Decode(decoding),
        of_io == SigningClientError::IO(io),
{
}

/// The message of an error is its label and behind it what the error holds: its text, or
/// the text of its cause.
pub proof fn law_signer_messages(error: SigningClientError, message: String)
    requires
        call_ensures(SigningClientError::message, (&error,), message),
    ensures
        match error {
            SigningClientError::CouldNotConnect(text) => message@
                == "SigningClientError - CouldNotConnect: "@ + text@,
            SigningClientError::RemoteCallFailure(text) => message@
                == "SigningClientError - RemoteCallFailure: "@ + text@,
            SigningClientError::Encode(cause) => exists|text: String| #[trigger]
                to_string_from_display_ensures(&cause, text) && message@
                    == "SigningClientError - Encode: "@ + text@,
            SigningClientError::Decode(cause) => exists|text: String| #[trigger]
                to_string_from_display_ensures(&cause, text) && message@
                    == "SigningClientError - Decode: "@ + text@,
            SigningClientError::IO(cause) => exists|text: String| #[trigger]
                to_string_from_display_ensures(&cause, text) && message@
                    == "SigningClientError - IO: "@ + text@,
        },
{
    let detail = choose|detail: Seq<char>| #[trigger]
        error.is_detail(detail) && message@ == error.spec_label() + detail;
    assert(error.is_detail(detail));
}

/// The label of an error names it.
pub proof fn law_signer_labels(error: SigningClientError, label: &'static str)
    requires
        call_ensures(SigningClientError::label, (&error,), label),
    ensures
        error is CouldNotConnect ==> label@ == "SigningClientError - CouldNotConnect: "@,
        error is RemoteCallFailure ==> label@ == "SigningClientError - RemoteCallFailure: "@,
        error is Encode ==> label@ == "SigningClientError - Encode: "@,
        error is Decode ==> label@ == "SigningClientError - Decode: "@,
        error is IO ==> label@ == "SigningClientError - IO: "@,
{
}

} // verus!
