//! A framed peer-to-peer message: a header whose checksum covers the
//! payload that follows it.

use vstd::prelude::*;
use crate::hash::{double_sha256, dsha256_of};
use crate::message_error::MessageError;
use crate::message_header::{MessageHeader, header_bytes, message_magic};
use crate::serialize::{u32_of_le, read_bytes};

verus! {

#[derive(Clone, Debug)]
pub struct Message {
    pub header: MessageHeader,
    pub payload: Vec<u8>,
}

/// The zero-padded 12-byte command field.
pub open spec fn padded_command(command: Seq<u8>) -> Seq<u8> {
    command + Seq::new((12 - command.len()) as nat, |i: int| 0u8)
}

impl Message {
    /// Frames a payload under a command: the command is zero padded and
    /// the checksum is the first four bytes of the payload's double
    /// hash.
    pub fn from_payload(command: &[u8], payload: Vec<u8>) -> (r: Message)
        requires
            command@.len() <= 12,
            payload@.len() <= u32::MAX,
        ensures
            r.header.command@ == padded_command(command@),
            r.header.payload_size == payload@.len(),
            r.header.checksum@ == dsha256_of(payload@).take(4),
            r.payload@ == payload@,
    {
        let hash = double_sha256(payload.as_slice());
        let checksum = [hash[0], hash[1], hash[2], hash[3]];
        proof {
            assert(checksum@ =~= dsha256_of(payload@).take(4));
        }
        let mut command_padded = [0u8; 12];
        let mut i: usize = 0;
        while i < command.len()
            invariant
                command@.len() <= 12,
                i <= command@.len(),
                forall|j: int| 0 <= j < i ==> command_padded@[j] == command@[j],
                forall|j: int| i <= j < 12 ==> command_padded@[j] == 0,
            decreases command@.len() - i,
        {
            command_padded[i] = command[i];
            i += 1;
        }
        proof {
            assert(command_padded@ =~= padded_command(command@));
        }
        let header = MessageHeader::new(command_padded, payload.len() as u32, checksum);
        Message { header, payload }
    }

    /// Parses a framed message at `pos` and verifies its checksum.
    pub fn from_stream(data: &[u8], pos: usize) -> (r: Result<(Message, usize), MessageError>)
        requires
            pos <= data@.len(),
        ensures
            r is Ok <==> data@.len() - pos >= 24 && data@.subrange(pos as int, pos + 4)
                == message_magic() && pos + 24 + u32_of_le(data@.subrange(pos + 16, pos + 20))
                <= data@.len() && dsha256_of(
                data@.subrange(
                    pos + 24,
                    pos + 24 + u32_of_le(data@.subrange(pos + 16, pos + 20)),
                ),
            ).take(4) == data@.subrange(pos + 20, pos + 24),
            match r {
                Ok((m, end)) => {
                    &&& pos + 24 <= end == pos + 24 + m.header.payload_size <= data@.len()
                    &&& data@.subrange(pos as int, pos + 4) == message_magic()
                    &&& m.header.command@ == data@.subrange(pos + 4, pos + 16)
                    &&& m.header.payload_size == u32_of_le(data@.subrange(pos + 16, pos + 20))
                    &&& m.header.checksum@ == data@.subrange(pos + 20, pos + 24)
                    &&& m.payload@ == data@.subrange(pos + 24, end as int)
                    &&& dsha256_of(m.payload@).take(4) == m.header.checksum@
                },
                Err(MessageError::UnexpectedEnd) => data@.len() - pos < 4 || (data@.subrange(
                    pos as int,
                    pos + 4,
                ) == message_magic() && (data@.len() - pos < 24 || pos + 24 + u32_of_le(
                    data@.subrange(pos + 16, pos + 20),
                ) > data@.len())),
                Err(MessageError::WrongMagic) => data@.len() - pos >= 4 && data@.subrange(
                    pos as int,
                    pos + 4,
                ) != message_magic(),
                Err(MessageError::InvalidChecksum) => {
                    &&& data@.len() - pos >= 24
                    &&& data@.subrange(pos as int, pos + 4) == message_magic()
                    &&& pos + 24 + u32_of_le(data@.subrange(pos + 16, pos + 20)) <= data@.len()
                    &&& dsha256_of(
                        data@.subrange(
                            pos + 24,
                            pos + 24 + u32_of_le(data@.subrange(pos + 16, pos + 20)),
                        ),
                    ).take(4) != data@.subrange(pos + 20, pos + 24)
                },
            },
    {
        let (header, after) = match MessageHeader::from_stream(data, pos) {
            Ok(p) => p,
            Err(e) => {
                return Err(e);
            },
        };
        let n = data.len();
        if ((n - after) as u64) < header.payload_size as u64 {
            return Err(MessageError::UnexpectedEnd);
        }
        let count = header.payload_size as usize;
        let payload = read_bytes(data, after, count);
        let hash = double_sha256(payload.as_slice());
        let ok = hash[0] == header.checksum[0] && hash[1] == header.checksum[1] && hash[2]
            == header.checksum[2] && hash[3] == header.checksum[3];
        if !ok {
            proof {
                if dsha256_of(payload@).take(4) == header.checksum@ {
                    assert(dsha256_of(payload@).take(4)[0] == header.checksum@[0]);
                    assert(dsha256_of(payload@).take(4)[1] == header.checksum@[1]);
                    assert(dsha256_of(payload@).take(4)[2] == header.checksum@[2]);
                    assert(dsha256_of(payload@).take(4)[3] == header.checksum@[3]);
                    assert(false);
                }
            }
            return Err(MessageError::InvalidChecksum);
        }
        proof {
            assert(dsha256_of(payload@).take(4) =~= header.checksum@);
        }
        Ok((Message { header, payload }, after + count))
    }

    /// Appends the serialized message: the header then the payload.
    pub fn write_to_stream(&self, write: &mut Vec<u8>)
        ensures
            final(write)@ == old(write)@ + header_bytes(self.header) + self.payload@,
    {
        self.header.write_to_stream(write);
        write.extend_from_slice(self.payload.as_slice());
    }

    pub fn header(&self) -> (r: &MessageHeader)
        ensures
            r == &self.header,
    {
        &self.header
    }
}

} // verus!
