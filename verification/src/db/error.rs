use std::io;
use vstd::prelude::*;

pub use crate::index::error::{CollisionWalkErr, GetErr, InitErr, InsertErr};

verus! {

/// Error returned during execution of commands on the database.
#[derive(Debug)]
pub enum ExecuteError {
    GetErr(GetErr),
    InsertErr(InsertErr),
    InitErr(InitErr),
    AppendErr(AppendErr),
    ExitCmd,
}

/// Error while appending a value to the entries file.
#[derive(Debug)]
pub enum AppendErr {
    IoErr(io::Error),
}

impl From<io::Error> for AppendErr {
    fn from(value: io::Error) -> (r: Self) {
        Self::IoErr(value)
    }
}

impl vstd::std_specs::convert::FromSpecImpl<io::Error> for AppendErr {
    open spec fn obeys_from_spec() -> bool {
        true
    }

    open spec fn from_spec(v: io::Error) -> Self {
        AppendErr::IoErr(v)
    }
}

impl From<AppendErr> for ExecuteError {
    fn from(value: AppendErr) -> (r: Self) {
        Self::AppendErr(value)
    }
}

impl vstd::std_specs::convert::FromSpecImpl<AppendErr> for ExecuteError {
    open spec fn obeys_from_spec() -> bool {
        true
    }

    open spec fn from_spec(v: AppendErr) -> Self {
        ExecuteError::AppendErr(v)
    }
}

impl From<GetErr> for ExecuteError {
    fn from(value: GetErr) -> (r: Self) {
        Self::GetErr(value)
    }
}

impl vstd::std_specs::convert::FromSpecImpl<GetErr> for ExecuteError {
    open spec fn obeys_from_spec() -> bool {
        true
    }

    open spec fn from_spec(v: GetErr) -> Self {
        ExecuteError::GetErr(v)
    }
}

impl From<InsertErr> for ExecuteError {
    fn from(value: InsertErr) -> (r: Self) {
        Self::InsertErr(value)
    }
}

impl vstd::std_specs::convert::FromSpecImpl<InsertErr> for ExecuteError {
    open spec fn obeys_from_spec() -> bool {
        true
    }

    open spec fn from_spec(v: InsertErr) -> Self {
        ExecuteError::InsertErr(v)
    }
}

impl From<InitErr> for ExecuteError {
    fn from(value: InitErr) -> (r: Self) {
        Self::InitErr(value)
    }
}

impl vstd::std_specs::convert::FromSpecImpl<InitErr> for ExecuteError {
    open spec fn obeys_from_spec() -> bool {
        true
    }

    open spec fn from_spec(v: InitErr) -> Self {
        ExecuteError::InitErr(v)
    }
}

} // verus!
