//! The handle behind the asset pallet's remote procedure call interface:
//! the client it queries, and the error codes it reports.
use vstd::prelude::*;
use std::marker::PhantomData;
use std::sync::Arc;

verus! {

/// The handle of the balances-of-owner query over a client.
pub struct SugarfungeAsset<C, P> {
    pub client: Arc<C>,
    pub marker: PhantomData<P>,
}

impl<C, P> SugarfungeAsset<C, P> {
    /// A handle over `client`.
    pub fn new(client: Arc<C>) -> (r: Self)
        ensures
            r.client == client,
    {
        SugarfungeAsset { client, marker: PhantomData }
    }
}

/// Why a query failed.
#[derive(Clone, Copy, PartialEq, Eq, Debug, Structural)]
pub enum Error {
    /// The transaction was not decodable.
    DecodeError,
    /// The call to the runtime failed.
    RuntimeError,
}

/// The numeric code of an error.
pub open spec fn error_code(e: Error) -> i64 {
    match e {
        Error::RuntimeError => 1,
        Error::DecodeError => 2,
    }
}

impl Error {
    /// The numeric code of the error: 1 for a runtime failure, 2 for an
    /// undecodable transaction.
    pub fn code(self) -> (r: i64)
        ensures
            r == error_code(self),
    {
        match self {
            Error::RuntimeError => 1,
            Error::DecodeError => 2,
        }
    }
}

impl From<Error> for i64 {
    fn from(e: Error) -> (r: i64) {
        e.code()
    }
}

impl vstd::std_specs::convert::FromSpecImpl<Error> for i64 {
    open spec fn obeys_from_spec() -> bool {
        true
    }

    open spec fn from_spec(e: Error) -> i64 {
        error_code(e)
    }
}

} // verus!
