use std::io;
use std::num::ParseIntError;
use vstd::prelude::*;

use crate::index::hash::IdxHash;

verus! {

/// `std::io::Error`, the error of the caller's file operations; opaque here.
#[verifier::external_type_specification]
#[verifier::external_body]
pub struct ExIoError(io::Error);

/// `std::num::ParseIntError`; opaque here.
#[verifier::external_type_specification]
#[verifier::external_body]
pub struct ExParseIntError(ParseIntError);

/// Error returned during execution of commands on the index.
#[derive(Debug)]
pub enum ExecuteError {
    GetErr(GetErr),
    InsertErr(InsertErr),
    InitErr(InitErr),
    ExitCmd,
}

impl From<GetErr> for ExecuteError {
    fn from(value: GetErr) -> (r: Self) {
        Self::GetErr(value)
    }
}

impl vstd::std_specs::convert::FromSpecImpl<GetErr> for ExecuteError {
    open spec fn obeys_from_spec() -> bool {
        true
    }

    open spec fn from_spec(v: GetErr) -> Self {
        ExecuteError::GetErr(v)
    }
}

impl From<InsertErr> for ExecuteError {
    fn from(value: InsertErr) -> (r: Self) {
        Self::InsertErr(value)
    }
}

impl vstd::std_specs::convert::FromSpecImpl<InsertErr> for ExecuteError {
    open spec fn obeys_from_spec() -> bool {
        true
    }

    open spec fn from_spec(v: InsertErr) -> Self {
        ExecuteError::InsertErr(v)
    }
}

impl From<InitErr> for ExecuteError {
    fn from(value: InitErr) -> (r: Self) {
        Self::InitErr(value)
    }
}

impl vstd::std_specs::convert::FromSpecImpl<InitErr> for ExecuteError {
    open spec fn obeys_from_spec() -> bool {
        true
    }

    open spec fn from_spec(v: InitErr) -> Self {
        ExecuteError::InitErr(v)
    }
}

#[derive(Debug)]
pub enum InitErr {
    IoErr(io::Error),
}

impl From<io::Error> for InitErr {
    fn from(value: io::Error) -> (r: Self) {
        Self::IoErr(value)
    }
}

impl vstd::std_specs::convert::FromSpecImpl<io::Error> for InitErr {
    open spec fn obeys_from_spec() -> bool {
        true
    }

    open spec fn from_spec(v: io::Error) -> Self {
        InitErr::IoErr(v)
    }
}

#[derive(Debug)]
pub enum InsertErr {
    IoErr(io::Error),
    CWErr(CollisionWalkErr),
    ParseErr(ParseIntError),
}

impl From<io::Error> for InsertErr {
    fn from(value: io::Error) -> (r: Self) {
        Self::IoErr(value)
    }
}

impl vstd::std_specs::convert::FromSpecImpl<io::Error> for InsertErr {
    open spec fn obeys_from_spec() -> bool {
        true
    }

    open spec fn from_spec(v: io::Error) -> Self {
        InsertErr::IoErr(v)
    }
}

impl From<CollisionWalkErr> for InsertErr {
    fn from(value: CollisionWalkErr) -> (r: Self) {
        Self::CWErr(value)
    }
}

impl vstd::std_specs::convert::FromSpecImpl<CollisionWalkErr> for InsertErr {
    open spec fn obeys_from_spec() -> bool {
        true
    }

    open spec fn from_spec(v: CollisionWalkErr) -> Self {
        InsertErr::CWErr(v)
    }
}

#[derive(Debug, Clone, Copy, PartialEq, Eq, Structural)]
pub enum CollisionWalkErr {
    ByteConvertErr,
    HashNotFound { hash: IdxHash, len: u32 },
}

#[derive(Debug)]
pub enum GetErr {
    HashNotFound(IdxHash),
    ByteConvertErr,
    IoErr(io::Error),
}

impl From<io::Error> for GetErr {
    fn from(value: io::Error) -> (r: Self) {
        Self::IoErr(value)
    }
}

impl vstd::std_specs::convert::FromSpecImpl<io::Error> for GetErr {
    open spec fn obeys_from_spec() -> bool {
        true
    }

    open spec fn from_spec(v: io::Error) -> Self {
        GetErr::IoErr(v)
    }
}

} // verus!
