//! Records of the wire format: a number and a value. One with a number that a message type does not
//! declare is taken, and changes nothing that the type declares.
use vstd::prelude::*;

verus! {

use crate::message::MessageV;
use crate::types::numbered;
use crate::validate::{extensions_of, fields_of};

/// A number in the wire format: seven bits a byte, the lowest first, and a mark on all but the last.
pub open spec fn varint(n: nat) -> Seq<u8>
    decreases n,
{
    if n < 128 {
        seq![n as u8]
    } else {
        seq![(n % 128 + 128) as u8] + varint(n / 128)
    }
}

/// The value of a record.
pub enum Load {
    Varint(u64),
    Fixed64(Seq<u8>),
    Bytes(Seq<u8>),
    Fixed32(Seq<u8>),
}

/// Whether there is a record with this number and value.
pub open spec fn is_record(number: u32, load: Load) -> bool {
    &&& 0 < number < 0x2000_0000
    &&& match load {
        Load::Varint(_) => true,
        Load::Fixed64(b) => b.len() == 8,
        Load::Bytes(b) => b.len() < 0x8000_0000,
        Load::Fixed32(b) => b.len() == 4,
    }
}

/// The bytes of a record.
pub open spec fn record(number: u32, load: Load) -> Seq<u8> {
    match load {
        Load::Varint(v) => varint((number * 8) as nat) + varint(v as nat),
        Load::Fixed64(b) => varint((number * 8 + 1) as nat) + b,
        Load::Bytes(b) => varint((number * 8 + 2) as nat) + varint(b.len()) + b,
        Load::Fixed32(b) => varint((number * 8 + 5) as nat) + b,
    }
}

/// Whether a message type declares no field, and has no extension, with this number.
pub open spec fn undeclared(files: Seq<MessageV>, name: Seq<char>, number: u32) -> bool {
    numbered(fields_of(files, name), number) is None && numbered(
        extensions_of(files, name),
        number,
    ) is None
}

} // verus!
