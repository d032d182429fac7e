//! Stream type ids of the lite protocol family, and the setup type ids
//! that select the compatible families.

use crate::coding::DecodeError;
use vstd::prelude::*;

verus! {

/// The type of a bidirectional control stream.
#[derive(Debug, Clone, Copy, PartialEq, Eq, Structural)]
pub enum ControlType {
    Session,
    Announce,
    Subscribe,
    /// A client setup of moq-transport drafts 7 to 9.
    ClientCompatV7,
    ServerCompatV7,
    /// A client setup of moq-transport drafts 10 to 14.
    ClientCompatV14,
    ServerCompatV14,
}

pub open spec fn control_type_code(t: ControlType) -> u64 {
    match t {
        ControlType::Session => 0,
        ControlType::Announce => 1,
        ControlType::Subscribe => 2,
        ControlType::ClientCompatV7 => 0x40,
        ControlType::ServerCompatV7 => 0x41,
        ControlType::ClientCompatV14 => 0x20,
        ControlType::ServerCompatV14 => 0x21,
    }
}

impl ControlType {
    pub fn code(&self) -> (r: u64)
        ensures
            r == control_type_code(*self),
    {
        match self {
            ControlType::Session => 0,
            ControlType::Announce => 1,
            ControlType::Subscribe => 2,
            ControlType::ClientCompatV7 => 0x40,
            ControlType::ServerCompatV7 => 0x41,
            ControlType::ClientCompatV14 => 0x20,
            ControlType::ServerCompatV14 => 0x21,
        }
    }

    /// The stream type with this id; any other id is invalid.
    pub fn from_code(v: u64) -> (r: Result<ControlType, DecodeError>)
        ensures
            r matches Ok(t) ==> control_type_code(t) == v,
            r is Err <==> !(v <= 2 || v == 0x20 || v == 0x21 || v == 0x40 || v == 0x41),
            r is Err ==> r == Err::<ControlType, DecodeError>(DecodeError::InvalidValue),
    {
        if v == 0 {
            Ok(ControlType::Session)
        } else if v == 1 {
            Ok(ControlType::Announce)
        } else if v == 2 {
            Ok(ControlType::Subscribe)
        } else if v == 0x40 {
            Ok(ControlType::ClientCompatV7)
        } else if v == 0x41 {
            Ok(ControlType::ServerCompatV7)
        } else if v == 0x20 {
            Ok(ControlType::ClientCompatV14)
        } else if v == 0x21 {
            Ok(ControlType::ServerCompatV14)
        } else {
            Err(DecodeError::InvalidValue)
        }
    }
}

/// The type of a unidirectional data stream.
#[derive(Debug, Clone, Copy, PartialEq, Eq, Structural)]
pub enum DataType {
    Group,
}

impl DataType {
    pub fn code(&self) -> (r: u64)
        ensures
            r == 0,
    {
        0
    }

    /// Only a group stream (0) exists.
    pub fn from_code(v: u64) -> (r: Result<DataType, DecodeError>)
        ensures
            v == 0 ==> r == Ok::<DataType, DecodeError>(DataType::Group),
            v != 0 ==> r == Err::<DataType, DecodeError>(DecodeError::InvalidValue),
    {
        if v == 0 {
            Ok(DataType::Group)
        } else {
            Err(DecodeError::InvalidValue)
        }
    }
}

} // verus!
