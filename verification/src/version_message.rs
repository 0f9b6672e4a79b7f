//! The version handshake message of the peer-to-peer protocol.

use vstd::prelude::*;
use crate::message::{Message, padded_command};
use crate::serialize::{
    i32_le_bytes, i32_of_le, i64_le_bytes, i64_of_le, read_var_str, u16_le_bytes, u16_of_le,
    u64_le_bytes, u64_of_le, var_str_bytes, var_str_value, write_i32_le, write_i64_le,
    write_u16_le, write_u64_le, write_var_str, read_bytes,
};
use crate::hash::dsha256_of;

verus! {

#[derive(Clone, Debug)]
pub struct VersionMessage {
    pub version: i32,
    pub services: u64,
    pub timestamp: i64,
    pub recv_services: u64,
    pub recv_addr: [u8; 16],
    pub recv_port: u16,
    pub send_services: u64,
    pub send_addr: [u8; 16],
    pub send_port: u16,
    pub nonce: u64,
    pub user_agent: Vec<u8>,
    pub start_height: i32,
    pub relay: bool,
}

/// The serialized version payload, field by field.
pub open spec fn version_payload_bytes(v: VersionMessage) -> Seq<u8> {
    i32_le_bytes(v.version) + u64_le_bytes(v.services) + i64_le_bytes(v.timestamp) + u64_le_bytes(
        v.recv_services,
    ) + v.recv_addr@ + u16_le_bytes(v.recv_port) + u64_le_bytes(v.send_services) + v.send_addr@
        + u16_le_bytes(v.send_port) + u64_le_bytes(v.nonce) + var_str_bytes(v.user_agent@)
        + i32_le_bytes(v.start_height) + seq![
        if v.relay {
            1u8
        } else {
            0u8
        },
    ]
}

impl VersionMessage {
    /// The command this message travels under.
    pub fn command() -> (r: Vec<u8>)
        ensures
            r@ == seq![0x76u8, 0x65, 0x72, 0x73, 0x69, 0x6f, 0x6e],
    {
        let mut c: Vec<u8> = Vec::new();
        c.push(0x76);
        c.push(0x65);
        c.push(0x72);
        c.push(0x73);
        c.push(0x69);
        c.push(0x6f);
        c.push(0x6e);
        proof {
            assert(c@ =~= seq![0x76u8, 0x65, 0x72, 0x73, 0x69, 0x6f, 0x6e]);
        }
        c
    }

    /// Frames the serialized payload as a version message.
    pub fn message(&self) -> (r: Message)
        requires
            self.user_agent@.len() <= 0xffff,
        ensures
            r.payload@ == version_payload_bytes(*self),
            r.header.command@ == padded_command(
                seq![0x76u8, 0x65, 0x72, 0x73, 0x69, 0x6f, 0x6e],
            ),
            r.header.checksum@ == dsha256_of(version_payload_bytes(*self)).take(4),
    {
        let mut payload: Vec<u8> = Vec::new();
        write_i32_le(&mut payload, self.version);
        write_u64_le(&mut payload, self.services);
        write_i64_le(&mut payload, self.timestamp);
        write_u64_le(&mut payload, self.recv_services);
        payload.extend_from_slice(self.recv_addr.as_slice());
        write_u16_le(&mut payload, self.recv_port);
        write_u64_le(&mut payload, self.send_services);
        payload.extend_from_slice(self.send_addr.as_slice());
        write_u16_le(&mut payload, self.send_port);
        write_u64_le(&mut payload, self.nonce);
        write_var_str(&mut payload, self.user_agent.as_slice());
        write_i32_le(&mut payload, self.start_height);
        payload.push(
            if self.relay {
                1
            } else {
                0
            },
        );
        proof {
            assert(payload@ =~= version_payload_bytes(*self));
        }
        let command = VersionMessage::command();
        Message::from_payload(command.as_slice(), payload)
    }
}

impl VersionMessage {
    /// Parses a version payload: the fixed fields at their offsets, the
    /// length-prefixed user agent, and the trailing height and relay
    /// flag.
    pub fn from_payload(payload: &[u8]) -> (r: Option<VersionMessage>)
        ensures
            r is Some <==> payload@.len() >= 81 && var_str_value(payload@.skip(80)) is Some
                && payload@.skip(
                80 + (var_str_value(payload@.skip(80))->0).1,
            ).len() >= 5,
            r is Some ==> {
                let v = r->0;
                let p = payload@;
                &&& p.len() >= 81
                &&& v.version == i32_of_le(p.subrange(0, 4))
                &&& v.services == u64_of_le(p.subrange(4, 12))
                &&& v.timestamp == i64_of_le(p.subrange(12, 20))
                &&& v.recv_services == u64_of_le(p.subrange(20, 28))
                &&& v.recv_addr@ == p.subrange(28, 44)
                &&& v.recv_port == u16_of_le(p.subrange(44, 46))
                &&& v.send_services == u64_of_le(p.subrange(46, 54))
                &&& v.send_addr@ == p.subrange(54, 70)
                &&& v.send_port == u16_of_le(p.subrange(70, 72))
                &&& v.nonce == u64_of_le(p.subrange(72, 80))
                &&& var_str_value(p.skip(80)) is Some
                &&& v.user_agent@ == (var_str_value(p.skip(80))->0).0
                &&& p.skip(80 + (var_str_value(p.skip(80))->0).1).len() >= 5
                &&& v.start_height == i32_of_le(
                    p.skip(80 + (var_str_value(p.skip(80))->0).1).subrange(0, 4),
                )
                &&& v.relay == (p.skip(80 + (var_str_value(p.skip(80))->0).1)[4] > 0)
            },
    {
        let n = payload.len();
        if n < 81 {
            return None;
        }
        let version = read_i32_at(payload, 0);
        let services = read_u64_at(payload, 4);
        let timestamp = read_i64_at(payload, 12);
        let recv_services = read_u64_at(payload, 20);
        let recv_addr = read_addr_at(payload, 28);
        let recv_port = read_u16_at(payload, 44);
        let send_services = read_u64_at(payload, 46);
        let send_addr = read_addr_at(payload, 54);
        let send_port = read_u16_at(payload, 70);
        let nonce = read_u64_at(payload, 72);
        let (user_agent, after_agent) = match read_var_str(payload, 80) {
            Some(pair) => pair,
            None => {
                return None;
            },
        };
        if n - after_agent < 5 {
            return None;
        }
        let start_height = read_i32_at(payload, after_agent);
        let relay = payload[after_agent + 4] > 0;
        proof {
            let p = payload@;
            let used = (var_str_value(p.skip(80))->0).1;
            assert(p.skip(80 + used).subrange(0, 4) =~= p.subrange(
                after_agent as int,
                after_agent + 4,
            ));
            assert(p.skip(80 + used)[4] == p[after_agent + 4]);
        }
        Some(
            VersionMessage {
                version,
                services,
                timestamp,
                recv_services,
                recv_addr,
                recv_port,
                send_services,
                send_addr,
                send_port,
                nonce,
                user_agent,
                start_height,
                relay,
            },
        )
    }
}

fn read_u16_at(data: &[u8], at: usize) -> (r: u16)
    requires
        at + 2 <= data@.len(),
    ensures
        r == u16_of_le(data@.subrange(at as int, at + 2)),
{
    proof {
        assert(data@.subrange(at as int, at + 2) =~= seq![data@[at as int], data@[at + 1]]);
    }
    data[at] as u16 + data[at + 1] as u16 * 0x100
}

fn read_u64_at(data: &[u8], at: usize) -> (r: u64)
    requires
        at + 8 <= data@.len(),
    ensures
        r == u64_of_le(data@.subrange(at as int, at + 8)),
{
    proof {
        assert(data@.subrange(at as int, at + 8) =~= seq![
            data@[at as int],
            data@[at + 1],
            data@[at + 2],
            data@[at + 3],
            data@[at + 4],
            data@[at + 5],
            data@[at + 6],
            data@[at + 7],
        ]);
    }
    data[at] as u64 + data[at + 1] as u64 * 0x100 + data[at + 2] as u64 * 0x1_0000 + data[at + 3]
        as u64 * 0x100_0000 + data[at + 4] as u64 * 0x1_0000_0000 + data[at + 5] as u64
        * 0x100_0000_0000 + data[at + 6] as u64 * 0x1_0000_0000_0000 + data[at + 7] as u64
        * 0x100_0000_0000_0000
}

fn read_i32_at(data: &[u8], at: usize) -> (r: i32)
    requires
        at + 4 <= data@.len(),
    ensures
        r == i32_of_le(data@.subrange(at as int, at + 4)),
{
    proof {
        assert(data@.subrange(at as int, at + 4) =~= seq![
            data@[at as int],
            data@[at + 1],
            data@[at + 2],
            data@[at + 3],
        ]);
    }
    let u: u64 = data[at] as u64 + data[at + 1] as u64 * 0x100 + data[at + 2] as u64 * 0x1_0000
        + data[at + 3] as u64 * 0x100_0000;
    if u < 0x8000_0000 {
        u as i32
    } else {
        (u as i64 - 0x1_0000_0000) as i32
    }
}

fn read_i64_at(data: &[u8], at: usize) -> (r: i64)
    requires
        at + 8 <= data@.len(),
    ensures
        r == i64_of_le(data@.subrange(at as int, at + 8)),
{
    let u = read_u64_at(data, at);
    if u < 0x8000_0000_0000_0000 {
        u as i64
    } else {
        (u as i128 - 0x1_0000_0000_0000_0000) as i64
    }
}

fn read_addr_at(data: &[u8], at: usize) -> (r: [u8; 16])
    requires
        at + 16 <= data@.len(),
    ensures
        r@ == data@.subrange(at as int, at + 16),
{
    let mut out = [0u8; 16];
    let n = data.len();
    let mut i: usize = 0;
    while i < 16
        invariant
            n == data@.len(),
            at + 16 <= n,
            i <= 16,
            forall|j: int| 0 <= j < i ==> out@[j] == data@[at + j],
        decreases 16 - i,
    {
        out[i] = data[at + i];
        i += 1;
    }
    proof {
        assert(out@ =~= data@.subrange(at as int, at + 16));
    }
    out
}

pub struct VerackMessage;

impl VerackMessage {
    /// The empty acknowledgement that answers a version message.
    pub fn message(&self) -> (r: Message)
        ensures
            r.payload@ == Seq::<u8>::empty(),
            r.header.command@ == padded_command(seq![0x76u8, 0x65, 0x72, 0x61, 0x63, 0x6b]),
            r.header.payload_size == 0,
            r.header.checksum@ == dsha256_of(Seq::<u8>::empty()).take(4),
    {
        let mut c: Vec<u8> = Vec::new();
        c.push(0x76);
        c.push(0x65);
        c.push(0x72);
        c.push(0x61);
        c.push(0x63);
        c.push(0x6b);
        proof {
            assert(c@ =~= seq![0x76u8, 0x65, 0x72, 0x61, 0x63, 0x6b]);
        }
        let payload: Vec<u8> = Vec::new();
        proof {
            assert(payload@ =~= Seq::<u8>::empty());
        }
        Message::from_payload(c.as_slice(), payload)
    }
}

} // verus!
