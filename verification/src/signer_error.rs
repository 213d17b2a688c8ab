//! Errors of a remote signer.

use bitcoin::consensus::encode;
use vstd::prelude::*;
use vstd::string::{to_string_from_display_ensures, StringExecFns};

verus! {

/// `bitcoin`'s error on reading or writing consensus data.
#[verifier::external_type_specification]
#[verifier::external_body]
pub struct ExEncodeError(bitcoin::consensus::encode::Error);

/// `base64`'s error on reading a text.
#[verifier::external_type_specification]
#[verifier::external_body]
pub struct ExDecodeError(base64::DecodeError);

/// The standard library's error on reading or writing.
#[verifier::external_type_specification]
#[verifier::external_body]
pub struct ExIoError(std::io::Error);

/// Why a remote signer did not sign.
pub enum SigningClientError {
    CouldNotConnect(String),
    RemoteCallFailure(String),
    Encode(encode::Error),
    Decode(base64::DecodeError),
    IO(std::io::Error),
}

impl From<encode::Error> for SigningClientError {
    fn from(error: encode::Error) -> (res: Self) {
        SigningClientError::Encode(error)
    }
}

impl vstd::std_specs::convert::FromSpecImpl<encode::Error> for SigningClientError {
    open spec fn obeys_from_spec() -> bool {
        true
    }

    open spec fn from_spec(error: encode::Error) -> Self {
        SigningClientError::Encode(error)
    }
}

impl From<base64::DecodeError> for SigningClientError {
    fn from(error: base64::DecodeError) -> (res: Self) {
        SigningClientError::Decode(error)
    }
}

impl vstd::std_specs::convert::FromSpecImpl<base64::DecodeError> for SigningClientError {
    open spec fn obeys_from_spec() -> bool {
        true
    }

    open spec fn from_spec(error: base64::DecodeError) -> Self {
        SigningClientError::Decode(error)
    }
}

impl From<std::io::Error> for SigningClientError {
    fn from(error: std::io::Error) -> (res: Self) {
        SigningClientError::IO(error)
    }
}

impl vstd::std_specs::convert::FromSpecImpl<std::io::Error> for SigningClientError {
    open spec fn obeys_from_spec() -> bool {
        true
    }

    open spec fn from_spec(error: std::io::Error) -> Self {
        SigningClientError::IO(error)
    }
}

impl SigningClientError {
    /// What the message of the error starts with.
    pub open spec fn spec_label(self) -> Seq<char> {
        match self {
            SigningClientError::CouldNotConnect(_) => "SigningClientError - CouldNotConnect: "@,
            SigningClientError::RemoteCallFailure(
                _,
            ) => "SigningClientError - RemoteCallFailure: "@,
            SigningClientError::Encode(_) => "SigningClientError - Encode: "@,
            SigningClientError::Decode(_) => "SigningClientError - Decode: "@,
            SigningClientError::IO(_) => "SigningClientError - IO: "@,
        }
    }

    /// Is `detail` what the message of the error says behind its start?
    pub open spec fn is_detail(self, detail: Seq<char>) -> bool {
        match self {
            SigningClientError::CouldNotConnect(text) => detail == text@,
            SigningClientError::RemoteCallFailure(text) => detail == text@,
            SigningClientError::Encode(error) => exists|text: String| #[trigger]
                to_string_from_display_ensures(&error, text) && detail == text@,
            SigningClientError::Decode(error) => exists|text: String| #[trigger]
                to_string_from_display_ensures(&error, text) && detail == text@,
            SigningClientError::IO(error) => exists|text: String| #[trigger]
                to_string_from_display_ensures(&error, text) && detail == text@,
        }
    }

    /// What the message of the error starts with.
    pub fn label(&self) -> (res: &'static str)
        ensures
            res@ == self.spec_label(),
    {
        match self {
            SigningClientError::CouldNotConnect(_) => "SigningClientError - CouldNotConnect: ",
            SigningClientError::RemoteCallFailure(_) => "SigningClientError - RemoteCallFailure: ",
            SigningClientError::Encode(_) => "SigningClientError - Encode: ",
            SigningClientError::Decode(_) => "SigningClientError - Decode: ",
            SigningClientError::IO(_) => "SigningClientError - IO: ",
        }
    }

    /// The message of the error.
    pub fn message(&self) -> (res: String)
        ensures
            exists|detail: Seq<char>| #[trigger]
                self.is_detail(detail) && res@ == self.spec_label() + detail,
    {
        let detail = match self {
            SigningClientError::CouldNotConnect(text) => text.clone(),
            SigningClientError::RemoteCallFailure(text) => text.clone(),
            SigningClientError::Encode(error) => error.to_string(),
            SigningClientError::Decode(error) => error.to_string(),
            SigningClientError::IO(error) => error.to_string(),
        };
        assert(self.is_detail(detail@));
        self.label().to_owned().concat(detail.as_str())
    }
}

} // verus!
