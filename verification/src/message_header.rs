//! The fixed 24-byte header of a peer-to-peer message: magic, padded
//! command, payload size, and payload checksum.

use vstd::prelude::*;
use crate::message_error::MessageError;
use crate::serialize::{u32_le_bytes, u32_of_le, write_u32_le, read_bytes};

verus! {

/// The network magic that opens every message.
pub open spec fn message_magic() -> Seq<u8> {
    seq![0xe3u8, 0xe1, 0xf3, 0xe8]
}

#[derive(Clone, Debug)]
pub struct MessageHeader {
    pub command: [u8; 12],
    pub payload_size: u32,
    pub checksum: [u8; 4],
}

/// The serialized header.
pub open spec fn header_bytes(h: MessageHeader) -> Seq<u8> {
    message_magic() + h.command@ + u32_le_bytes(h.payload_size) + h.checksum@
}

/// The length of the command before its zero padding.
pub open spec fn command_name_len(command: Seq<u8>) -> int
    decreases command.len(),
{
    if command.len() == 0 {
        0int
    } else if command.first() == 0 {
        0int
    } else {
        1 + command_name_len(command.drop_first())
    }
}

impl MessageHeader {
    pub fn new(command: [u8; 12], payload_size: u32, checksum: [u8; 4]) -> (r: MessageHeader)
        ensures
            r.command@ == command@,
            r.payload_size == payload_size,
            r.checksum@ == checksum@,
    {
        MessageHeader { command, payload_size, checksum }
    }

    /// Parses a header at `pos`: four magic bytes, twelve command
    /// bytes, the payload size, and the checksum.
    pub fn from_stream(data: &[u8], pos: usize) -> (r: Result<(MessageHeader, usize), MessageError>)
        requires
            pos <= data@.len(),
        ensures
            match r {
                Ok((h, end)) => {
                    &&& end == pos + 24 <= data@.len()
                    &&& data@.subrange(pos as int, pos + 4) == message_magic()
                    &&& h.command@ == data@.subrange(pos + 4, pos + 16)
                    &&& h.payload_size == u32_of_le(data@.subrange(pos + 16, pos + 20))
                    &&& h.checksum@ == data@.subrange(pos + 20, pos + 24)
                },
                Err(MessageError::UnexpectedEnd) => data@.len() - pos < 4 || (data@.subrange(
                    pos as int,
                    pos + 4,
                ) == message_magic() && data@.len() - pos < 24),
                Err(MessageError::WrongMagic) => data@.len() - pos >= 4 && data@.subrange(
                    pos as int,
                    pos + 4,
                ) != message_magic(),
                Err(_) => false,
            },
    {
        let n = data.len();
        if n - pos < 4 {
            return Err(MessageError::UnexpectedEnd);
        }
        if !(data[pos] == 0xe3 && data[pos + 1] == 0xe1 && data[pos + 2] == 0xf3 && data[pos + 3]
            == 0xe8) {
            proof {
                assert(data@.subrange(pos as int, pos + 4) =~= seq![
                    data@[pos as int],
                    data@[pos + 1],
                    data@[pos + 2],
                    data@[pos + 3],
                ]);
            }
            return Err(MessageError::WrongMagic);
        }
        proof {
            assert(data@.subrange(pos as int, pos + 4) =~= message_magic());
        }
        if n - pos < 24 {
            return Err(MessageError::UnexpectedEnd);
        }
        let mut command = [0u8; 12];
        let mut i: usize = 0;
        while i < 12
            invariant
                n == data@.len(),
                pos + 24 <= n,
                i <= 12,
                forall|j: int| 0 <= j < i ==> command@[j] == data@[pos + 4 + j],
            decreases 12 - i,
        {
            command[i] = data[pos + 4 + i];
            i += 1;
        }
        proof {
            assert(command@ =~= data@.subrange(pos + 4, pos + 16));
        }
        let payload_size: u32 = (data[pos + 16] as u64 + data[pos + 17] as u64 * 0x100 + data[pos
            + 18] as u64 * 0x1_0000 + data[pos + 19] as u64 * 0x100_0000) as u32;
        proof {
            assert(data@.subrange(pos + 16, pos + 20) =~= seq![
                data@[pos + 16],
                data@[pos + 17],
                data@[pos + 18],
                data@[pos + 19],
            ]);
        }
        let checksum = [data[pos + 20], data[pos + 21], data[pos + 22], data[pos + 23]];
        proof {
            assert(checksum@ =~= data@.subrange(pos + 20, pos + 24));
        }
        Ok((MessageHeader { command, payload_size, checksum }, pos + 24))
    }

    /// Appends the serialized header.
    pub fn write_to_stream(&self, write: &mut Vec<u8>)
        ensures
            final(write)@ == old(write)@ + header_bytes(*self),
    {
        write.push(0xe3);
        write.push(0xe1);
        write.push(0xf3);
        write.push(0xe8);
        write.extend_from_slice(self.command.as_slice());
        write_u32_le(write, self.payload_size);
        write.extend_from_slice(self.checksum.as_slice());
        assert(write@ =~= old(write)@ + header_bytes(*self));
    }

    pub fn command(&self) -> (r: &[u8; 12])
        ensures
            r@ == self.command@,
    {
        &self.command
    }

    pub fn payload_size(&self) -> (r: u32)
        ensures
            r == self.payload_size,
    {
        self.payload_size
    }

    pub fn checksum(&self) -> (r: &[u8; 4])
        ensures
            r@ == self.checksum@,
    {
        &self.checksum
    }

    /// The command, stripped of its zero padding.
    pub fn command_name(&self) -> (r: Vec<u8>)
        ensures
            r@ == self.command@.take(command_name_len(self.command@)),
    {
        let mut len: usize = 0;
        while len < 12 && self.command[len] != 0
            invariant
                len <= 12,
                forall|j: int| 0 <= j < len ==> self.command@[j] != 0,
            decreases 12 - len,
        {
            len += 1;
        }
        proof {
            lemma_command_name_len(self.command@, len as int);
        }
        read_bytes(self.command.as_slice(), 0, len)
    }
}

proof fn lemma_command_name_len(command: Seq<u8>, len: int)
    requires
        0 <= len <= command.len(),
        forall|j: int| 0 <= j < len ==> command[j] != 0,
        len < command.len() ==> command[len] == 0,
    ensures
        command_name_len(command) == len,
    decreases len,
{
    if len == 0 {
    } else {
        assert(command.first() != 0);
        let rest = command.drop_first();
        assert(forall|j: int| 0 <= j < len - 1 ==> rest[j] == command[j + 1]);
        assert(len - 1 < rest.len() ==> rest[len - 1] == command[len as int]);
        lemma_command_name_len(rest, len - 1);
    }
}

} // verus!
