//! Crate-wide error type.

use vstd::prelude::*;

use crate::document::{shows_as, wording};
use crate::text::{decimal, decimal_text};

verus! {

/// `std::io::Error`, as an opaque type.
#[verifier::external_type_specification]
#[verifier::external_body]
pub struct ExIoError(std::io::Error);

/// Why a document could not be read as the JSON of a state.
#[derive(Debug)]
pub enum StateJsonError {
    /// It is not JSON at all.
    NotJson(serde_json::Error),
    /// It is JSON, but this field is absent, comes twice, or does not have the type the schema gives
    /// it.
    Field(String),
}

/// The top-level error type for uncia.
///
/// State-input failures are deliberately specific: unreadable or wrong-kind input must fail loudly
/// with a message naming what went wrong, never degrade to an empty or partial parse.
#[derive(Debug)]
#[non_exhaustive]
#[allow(inconsistent_fields)]
pub enum UnciaError {
    /// The input could not be read.
    Io(std::io::Error),
    /// The state input is not valid JSON, or not JSON of the expected schema.
    StateJson(StateJsonError),
    /// The state input is encrypted and uncia holds no decryption keys.
    EncryptedState,
    /// A raw `.tfstate` file was given where `show -json` output is expected.
    RawStateFile,
    /// The raw `.tfstate` schema version is not the supported one.
    UnsupportedStateVersion { found: u64 },
    /// The state input is a plan, not state.
    WrongDocumentKind { marker: String },
    /// The `format_version` of the state input is not supported.
    UnsupportedFormatVersion { found: String },
    /// A collector failed.
    Collector(String),
}

/// Convenience alias used throughout the crate.
pub type Result<T> = std::result::Result<T, UnciaError>;

/// What a failure to parse state denotes.
pub enum StateFailure {
    /// Not JSON, with what the reader says of it where that is known.
    NotJson(Option<Seq<char>>),
    /// JSON in which this field is absent, comes twice or has the wrong type.
    Field(Seq<char>),
    Encrypted,
    RawStateFile,
    StateVersion(int),
    /// A plan, recognised by this key.
    Plan(Seq<char>),
    FormatVersion(Seq<char>),
    /// A failure that parsing never gives.
    Foreign,
}

impl View for UnciaError {
    type V = StateFailure;

    open spec fn view(&self) -> StateFailure {
        match self {
            UnciaError::StateJson(StateJsonError::NotJson(error)) => StateFailure::NotJson(
                wording(*error),
            ),
            UnciaError::StateJson(StateJsonError::Field(field)) => StateFailure::Field(field@),
            UnciaError::EncryptedState => StateFailure::Encrypted,
            UnciaError::RawStateFile => StateFailure::RawStateFile,
            UnciaError::UnsupportedStateVersion { found } => StateFailure::StateVersion(
                *found as int,
            ),
            UnciaError::WrongDocumentKind { marker } => StateFailure::Plan(marker@),
            UnciaError::UnsupportedFormatVersion { found } => StateFailure::FormatVersion(found@),
            UnciaError::Io(_) => StateFailure::Foreign,
            UnciaError::Collector(_) => StateFailure::Foreign,
        }
    }
}

impl UnciaError {
    /// The message of an error; `cause` is what the error underneath says of itself, where there is
    /// one.
    pub open spec fn worded(self, cause: Seq<char>) -> Seq<char> {
        match self {
            UnciaError::Io(_) => "failed to read input: "@ + cause,
            UnciaError::StateJson(
                StateJsonError::NotJson(_),
            ) => "state input is not valid JSON: "@ + cause,
            UnciaError::StateJson(
                StateJsonError::Field(field),
            ) => "state input is not valid JSON: missing, repeated or invalid field `"@ + field@
                + "`"@,
            UnciaError::EncryptedState =>
                "state input is encrypted and uncia holds no decryption keys; run `tofu show -json` so the state is decrypted before parsing"@,
            UnciaError::RawStateFile =>
                "state input is a raw .tfstate file where `show -json` output is expected; run `terraform show -json` to render it"@,
            UnciaError::UnsupportedStateVersion {
                found,
            } => "unsupported .tfstate schema version `"@ + decimal(found as nat) + "`; expected 4"@,
            UnciaError::WrongDocumentKind {
                marker,
            } => "state input is a plan, not state (found `"@ + marker@
                + "`); run `terraform show -json` without a plan file argument"@,
            UnciaError::UnsupportedFormatVersion {
                found,
            } => "unsupported state format_version `"@ + found@ + "`; expected 1.x"@,
            UnciaError::Collector(reason) => "collector error: "@ + reason@,
        }
    }

    /// There is another error underneath.
    pub open spec fn has_cause(self) -> bool {
        self is Io || (self matches UnciaError::StateJson(error) && error is NotJson)
    }

    /// The message of this error, with what the error underneath says of itself as `cause`.
    pub fn message_with(&self, cause: &str) -> (r: String)
        ensures
            r@ == self.worded(cause@),
    {
        proof {
            reveal_strlit("");
        }
        match self {
            UnciaError::Io(_) => enclosed("failed to read input: ", cause, ""),
            UnciaError::StateJson(StateJsonError::NotJson(_)) => enclosed(
                "state input is not valid JSON: ",
                cause,
                "",
            ),
            UnciaError::StateJson(StateJsonError::Field(field)) => enclosed(
                "state input is not valid JSON: missing, repeated or invalid field `",
                field.as_str(),
                "`",
            ),
            UnciaError::EncryptedState =>
                "state input is encrypted and uncia holds no decryption keys; run `tofu show -json` so the state is decrypted before parsing".to_owned(),
            UnciaError::RawStateFile =>
                "state input is a raw .tfstate file where `show -json` output is expected; run `terraform show -json` to render it".to_owned(),
            UnciaError::UnsupportedStateVersion { found } => enclosed(
                "unsupported .tfstate schema version `",
                decimal_text(*found as u128).as_str(),
                "`; expected 4",
            ),
            UnciaError::WrongDocumentKind { marker } => enclosed(
                "state input is a plan, not state (found `",
                marker.as_str(),
                "`); run `terraform show -json` without a plan file argument",
            ),
            UnciaError::UnsupportedFormatVersion { found } => enclosed(
                "unsupported state format_version `",
                found.as_str(),
                "`; expected 1.x",
            ),
            UnciaError::Collector(reason) => enclosed("collector error: ", reason.as_str(), ""),
        }
    }

    /// The message of this error.
    ///
    /// Of an error of `std::io` or of `serde_json` underneath it gives what `to_string` makes of it.
    /// For an error that comes of reading a text, that is what the reader says of the text.
    pub fn message(&self) -> (r: String)
        ensures
            self matches UnciaError::Io(error) ==> exists|cause: String| #[trigger]
                vstd::string::to_string_from_display_ensures::<std::io::Error>(&error, cause) && r@
                    == self.worded(cause@),
            self matches UnciaError::StateJson(StateJsonError::NotJson(error)) ==> exists|
                cause: String,
            | #[trigger]
                vstd::string::to_string_from_display_ensures::<serde_json::Error>(&error, cause)
                    && r@ == self.worded(cause@),
            self@ matches StateFailure::NotJson(Some(words)) ==> r@ == self.worded(words),
            !self.has_cause() ==> r@ == self.worded(Seq::empty()),
    {
        let cause = match self {
            UnciaError::Io(error) => error.to_string(),
            UnciaError::StateJson(StateJsonError::NotJson(error)) => error.to_string(),
            _ => String::new(),
        };
        proof {
            if let UnciaError::StateJson(StateJsonError::NotJson(error)) = self {
                if let Some(words) = wording(*error) {
                    assert(shows_as(*error, words));
                }
            }
        }
        self.message_with(cause.as_str())
    }
}

fn enclosed(before: &str, text: &str, after: &str) -> (r: String)
    ensures
        r@ == before@ + text@ + after@,
        after@.len() == 0 ==> r@ == before@ + text@,
{
    let mut whole = before.to_owned();
    whole.append(text);
    whole.append(after);
    assert(after@.len() == 0 ==> before@ + text@ + after@ =~= before@ + text@);
    whole
}

} // verus!
