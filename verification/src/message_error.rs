//! The errors of the peer-to-peer message framing.

use vstd::prelude::*;

verus! {

#[derive(Clone, Copy, Debug, PartialEq, Eq, Structural)]
pub enum MessageError {
    WrongMagic,
    InvalidChecksum,
    UnexpectedEnd,
}

} // verus!
