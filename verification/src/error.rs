//! The errors that decryption reports.

use vstd::prelude::*;

verus! {

/// Why a document could not be decrypted.
#[derive(Debug, PartialEq, Eq)]
pub enum DecryptError {
    /// A stream or a field of it does not have the layout that the format asks for.
    InvalidStructure,
    /// The password does not match the verifier that the document stores.
    InvalidPassword,
    /// The document uses an algorithm that this library does not implement.
    Unimplemented(String),
    /// A field could not be decoded.
    Unknown,
}

/// What a [`DecryptError`] says, as a mathematical value.
#[verifier::ext_equal]
pub enum ErrorView {
    InvalidStructure,
    InvalidPassword,
    Unimplemented(Seq<char>),
    Unknown,
}

impl View for DecryptError {
    type V = ErrorView;

    open spec fn view(&self) -> ErrorView {
        match self {
            DecryptError::InvalidStructure => ErrorView::InvalidStructure,
            DecryptError::InvalidPassword => ErrorView::InvalidPassword,
            DecryptError::Unimplemented(what) => ErrorView::Unimplemented(what@),
            DecryptError::Unknown => ErrorView::Unknown,
        }
    }
}

/// What a fallible function of this library returned, with both sides taken by their views.
pub open spec fn outcome<T: View>(result: Result<T, DecryptError>) -> Result<T::V, ErrorView> {
    match result {
        Ok(value) => Ok(value@),
        Err(error) => Err(error@),
    }
}

/// The view of a result tells success from each error, and keeps the value and the name.
pub proof fn law_outcome<T: View>(result: Result<T, DecryptError>)
    ensures
        result matches Ok(value) ==> outcome(result) == Ok::<T::V, ErrorView>(value@),
        result is Err ==> outcome(result) is Err,
        result is Err ==> (result->Err_0 is InvalidStructure
            <==> outcome(result)->Err_0 is InvalidStructure),
        result is Err ==> (result->Err_0 is InvalidPassword
            <==> outcome(result)->Err_0 is InvalidPassword),
        result is Err ==> (result->Err_0 is Unknown <==> outcome(result)->Err_0 is Unknown),
        result matches Err(DecryptError::Unimplemented(name)) ==> outcome(result) == Err::<
            T::V,
            ErrorView,
        >(ErrorView::Unimplemented(name@)),
{
}

} // verus!
