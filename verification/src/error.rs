use vstd::prelude::*;

verus! {

/// Why an operation of the store was refused.
#[derive(Clone, Copy, Debug, PartialEq, Eq, Structural, Hash)]
pub enum Error {
    /// An alt-key, blob or transaction is absent or tombstoned.
    NotFound,
    /// An add names an alt-key that is already live.
    Conflict,
    /// A form lacks a field of its template, or holds one of another kind.
    ValidationFailed,
    /// The entity may not change any more.
    Immutable,
    /// A payload could not be read.
    Decode,
    /// A payload could not be written.
    Encode,
    /// The tables or the blob store refused a write.
    Storage,
    /// A peer is not among the approved children.
    AuthDenied,
    /// A timeout or another failure that is worth a retry.
    Transient,
}

impl Error {
    /// Whether a retry after a pause may succeed.
    pub open spec fn spec_is_transient(self) -> bool {
        self == Error::Transient
    }

    #[verifier::when_used_as_spec(spec_is_transient)]
    pub fn is_transient(self) -> (transient: bool)
        ensures
            transient == self.spec_is_transient(),
    {
        match self {
            Error::Transient => true,
            _ => false,
        }
    }

    /// A short description, for logs and responses.
    pub fn message(self) -> (text: &'static str)
        ensures
            text@ == Self::message_of(self),
    {
        match self {
            Error::NotFound => "not found",
            Error::Conflict => "exists already",
            Error::ValidationFailed => "form does not follow template",
            Error::Immutable => "immutable",
            Error::Decode => "payload could not be decoded",
            Error::Encode => "payload could not be encoded",
            Error::Storage => "storage failure",
            Error::AuthDenied => "not an approved peer",
            Error::Transient => "temporarily unavailable",
        }
    }

    pub open spec fn message_of(e: Error) -> Seq<char> {
        match e {
            Error::NotFound => "not found"@,
            Error::Conflict => "exists already"@,
            Error::ValidationFailed => "form does not follow template"@,
            Error::Immutable => "immutable"@,
            Error::Decode => "payload could not be decoded"@,
            Error::Encode => "payload could not be encoded"@,
            Error::Storage => "storage failure"@,
            Error::AuthDenied => "not an approved peer"@,
            Error::Transient => "temporarily unavailable"@,
        }
    }
}

} // verus!
