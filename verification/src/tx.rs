//! The transaction model and its canonical byte layout.

use vstd::prelude::*;
use crate::script::Script;
use crate::serialize::{
    i32_le_bytes, u32_le_bytes, u64_le_bytes, var_int_bytes, var_str_bytes, write_i32_le,
    write_u32_le, write_u64_le, write_var_int, write_var_str,
};
use crate::hexcode::{hex_chars_of, hex_decode, hex_encode, hex_value_of};

verus! {

#[derive(Clone, Copy, Debug)]
pub struct TxOutpoint {
    pub tx_hash: [u8; 32],
    pub output_idx: u32,
}

/// The serialized outpoint: the transaction hash then the output index.
pub open spec fn outpoint_bytes(o: TxOutpoint) -> Seq<u8> {
    o.tx_hash@ + u32_le_bytes(o.output_idx)
}

#[derive(Clone, Debug)]
pub struct TxInput {
    pub outpoint: TxOutpoint,
    pub script: Script,
    pub sequence: u32,
}

/// The serialized input: outpoint, length-prefixed unlocking script,
/// sequence.
pub open spec fn tx_input_bytes(i: TxInput) -> Seq<u8> {
    outpoint_bytes(i.outpoint) + var_str_bytes(i.script.bytes()) + u32_le_bytes(i.sequence)
}

#[derive(Clone, Debug)]
pub struct TxOutput {
    pub value: u64,
    pub script: Script,
}

/// The serialized output: value then length-prefixed locking script.
pub open spec fn tx_output_bytes(o: TxOutput) -> Seq<u8> {
    u64_le_bytes(o.value) + var_str_bytes(o.script.bytes())
}

#[derive(Clone, Debug)]
pub struct Tx {
    pub version: i32,
    pub inputs: Vec<TxInput>,
    pub outputs: Vec<TxOutput>,
    pub lock_time: u32,
}

pub open spec fn tx_inputs_bytes(s: Seq<TxInput>) -> Seq<u8>
    decreases s.len(),
{
    if s.len() == 0 {
        Seq::empty()
    } else {
        tx_input_bytes(s.first()) + tx_inputs_bytes(s.drop_first())
    }
}

pub open spec fn tx_outputs_bytes(s: Seq<TxOutput>) -> Seq<u8>
    decreases s.len(),
{
    if s.len() == 0 {
        Seq::empty()
    } else {
        tx_output_bytes(s.first()) + tx_outputs_bytes(s.drop_first())
    }
}

/// The whole transaction: version, counted inputs, counted outputs, lock
/// time.
pub open spec fn tx_bytes(t: Tx) -> Seq<u8> {
    i32_le_bytes(t.version) + var_int_bytes(t.inputs@.len() as u64) + tx_inputs_bytes(t.inputs@)
        + var_int_bytes(t.outputs@.len() as u64) + tx_outputs_bytes(t.outputs@)
        + u32_le_bytes(t.lock_time)
}

pub proof fn lemma_tx_inputs_bytes_push(s: Seq<TxInput>, i: TxInput)
    ensures
        tx_inputs_bytes(s.push(i)) == tx_inputs_bytes(s) + tx_input_bytes(i),
    decreases s.len(),
{
    if s.len() == 0 {
        assert(s.push(i).drop_first() =~= s);
        assert(tx_inputs_bytes(s.push(i)) =~= tx_inputs_bytes(s) + tx_input_bytes(i));
    } else {
        assert(s.push(i).drop_first() =~= s.drop_first().push(i));
        lemma_tx_inputs_bytes_push(s.drop_first(), i);
        assert(tx_inputs_bytes(s.push(i)) =~= tx_inputs_bytes(s) + tx_input_bytes(i));
    }
}

/// Serializing an output list splits at any position.
pub proof fn lemma_tx_outputs_bytes_split(s: Seq<TxOutput>, n: int)
    requires
        0 <= n <= s.len(),
    ensures
        tx_outputs_bytes(s.take(n)) + tx_outputs_bytes(s.skip(n)) == tx_outputs_bytes(s),
    decreases n,
{
    if n == 0 {
        assert(s.take(0) =~= Seq::<TxOutput>::empty());
        assert(s.skip(0) =~= s);
        assert(tx_outputs_bytes(s.take(0)) + tx_outputs_bytes(s.skip(0)) =~= tx_outputs_bytes(s));
    } else {
        assert(s.take(n).first() == s.first());
        assert(s.take(n).drop_first() =~= s.drop_first().take(n - 1));
        assert(s.skip(n) =~= s.drop_first().skip(n - 1));
        lemma_tx_outputs_bytes_split(s.drop_first(), n - 1);
        assert(tx_outputs_bytes(s.take(n)) + tx_outputs_bytes(s.skip(n)) =~= tx_outputs_bytes(s));
    }
}

pub proof fn lemma_tx_outputs_bytes_push(s: Seq<TxOutput>, o: TxOutput)
    ensures
        tx_outputs_bytes(s.push(o)) == tx_outputs_bytes(s) + tx_output_bytes(o),
    decreases s.len(),
{
    if s.len() == 0 {
        assert(s.push(o).drop_first() =~= s);
        assert(tx_outputs_bytes(s.push(o)) =~= tx_outputs_bytes(s) + tx_output_bytes(o));
    } else {
        assert(s.push(o).drop_first() =~= s.drop_first().push(o));
        lemma_tx_outputs_bytes_push(s.drop_first(), o);
        assert(tx_outputs_bytes(s.push(o)) =~= tx_outputs_bytes(s) + tx_output_bytes(o));
    }
}

impl TxInput {
    pub fn new(outpoint: TxOutpoint, script: Script, sequence: u32) -> (r: TxInput)
        ensures
            r.outpoint == outpoint,
            r.script == script,
            r.sequence == sequence,
    {
        TxInput { outpoint, script, sequence }
    }

    pub fn write_to_stream(&self, write: &mut Vec<u8>)
        requires
            self.script.wf(),
        ensures
            final(write)@ == old(write)@ + tx_input_bytes(*self),
    {
        write.extend_from_slice(self.outpoint.tx_hash.as_slice());
        write_u32_le(write, self.outpoint.output_idx);
        let script = self.script.to_vec();
        write_var_str(write, script.as_slice());
        write_u32_le(write, self.sequence);
        assert(write@ =~= old(write)@ + tx_input_bytes(*self));
    }
}

impl TxOutput {
    pub fn new(value: u64, script: Script) -> (r: TxOutput)
        ensures
            r.value == value,
            r.script == script,
    {
        TxOutput { value, script }
    }

    pub fn write_to_stream(&self, write: &mut Vec<u8>)
        requires
            self.script.wf(),
        ensures
            final(write)@ == old(write)@ + tx_output_bytes(*self),
    {
        write_u64_le(write, self.value);
        let script = self.script.to_vec();
        write_var_str(write, script.as_slice());
        assert(write@ =~= old(write)@ + tx_output_bytes(*self));
    }
}

impl Tx {
    /// Every script in the transaction is serializable.
    pub open spec fn wf(&self) -> bool {
        &&& forall|i: int| 0 <= i < self.inputs@.len() ==> (#[trigger] self.inputs@[i]).script.wf()
        &&& forall|i: int|
            0 <= i < self.outputs@.len() ==> (#[trigger] self.outputs@[i]).script.wf()
    }

    pub fn new(version: i32, inputs: Vec<TxInput>, outputs: Vec<TxOutput>, lock_time: u32) -> (r:
        Tx)
        ensures
            r.version == version,
            r.inputs@ == inputs@,
            r.outputs@ == outputs@,
            r.lock_time == lock_time,
    {
        Tx { version, inputs, outputs, lock_time }
    }

    pub fn write_to_stream(&self, write: &mut Vec<u8>)
        requires
            self.wf(),
        ensures
            final(write)@ == old(write)@ + tx_bytes(*self),
    {
        write_i32_le(write, self.version);
        write_var_int(write, self.inputs.len() as u64);
        let mut i: usize = 0;
        let ghost mid1 = write@;
        proof {
            assert(self.inputs@.take(0) =~= Seq::<TxInput>::empty());
        }
        while i < self.inputs.len()
            invariant
                i <= self.inputs@.len(),
                forall|j: int|
                    0 <= j < self.inputs@.len() ==> (#[trigger] self.inputs@[j]).script.wf(),
                write@ == mid1 + tx_inputs_bytes(self.inputs@.take(i as int)),
            decreases self.inputs@.len() - i,
        {
            self.inputs[i].write_to_stream(write);
            i += 1;
            proof {
                lemma_tx_inputs_bytes_push(self.inputs@.take(i - 1), self.inputs@[i - 1]);
                assert(self.inputs@.take(i as int) =~= self.inputs@.take(i - 1).push(
                    self.inputs@[i - 1],
                ));
            }
        }
        proof {
            assert(self.inputs@.take(self.inputs@.len() as int) =~= self.inputs@);
        }
        write_var_int(write, self.outputs.len() as u64);
        let mut o: usize = 0;
        let ghost mid2 = write@;
        proof {
            assert(self.outputs@.take(0) =~= Seq::<TxOutput>::empty());
        }
        while o < self.outputs.len()
            invariant
                o <= self.outputs@.len(),
                forall|j: int|
                    0 <= j < self.outputs@.len() ==> (#[trigger] self.outputs@[j]).script.wf(),
                write@ == mid2 + tx_outputs_bytes(self.outputs@.take(o as int)),
            decreases self.outputs@.len() - o,
        {
            self.outputs[o].write_to_stream(write);
            o += 1;
            proof {
                lemma_tx_outputs_bytes_push(self.outputs@.take(o - 1), self.outputs@[o - 1]);
                assert(self.outputs@.take(o as int) =~= self.outputs@.take(o - 1).push(
                    self.outputs@[o - 1],
                ));
            }
        }
        proof {
            assert(self.outputs@.take(self.outputs@.len() as int) =~= self.outputs@);
        }
        write_u32_le(write, self.lock_time);
        assert(write@ =~= old(write)@ + tx_bytes(*self));
    }
}

/// The internal hash a user-facing hex transaction id denotes: the hex
/// bytes, reversed.
pub open spec fn tx_hash_of_hex(s: Seq<char>) -> Option<Seq<u8>> {
    match hex_value_of(s) {
        Some(v) => if v.len() == 32 {
            Some(v.reverse())
        } else {
            None
        },
        None => None,
    }
}

/// Converts a 64-digit hex transaction id to the internal hash order.
pub fn tx_hex_to_hash(s: &str) -> (r: Option<[u8; 32]>)
    ensures
        match r {
            Some(h) => tx_hash_of_hex(s@) == Some(h@),
            None => tx_hash_of_hex(s@) is None,
        },
{
    let v = match hex_decode(s) {
        Some(v) => v,
        None => {
            return None;
        },
    };
    if v.len() != 32 {
        return None;
    }
    let mut h = [0u8; 32];
    let mut i: usize = 0;
    while i < 32
        invariant
            v@.len() == 32,
            i <= 32,
            forall|j: int| 0 <= j < i ==> h@[j] == v@[31 - j],
        decreases 32 - i,
    {
        h[i] = v[31 - i];
        i += 1;
    }
    proof {
        assert(h@ =~= v@.reverse());
    }
    Some(h)
}

/// The user-facing hex id of an internal transaction hash: the bytes
/// reversed, in hex.
pub fn tx_hash_to_hex(hash: &[u8; 32]) -> (r: String)
    ensures
        r@ == hex_chars_of(hash@.reverse()),
{
    let mut rev: Vec<u8> = Vec::new();
    let mut i: usize = 0;
    while i < 32
        invariant
            i <= 32,
            rev@.len() == i,
            forall|j: int| 0 <= j < i ==> rev@[j] == hash@[31 - j],
        decreases 32 - i,
    {
        rev.push(hash[31 - i]);
        i += 1;
    }
    proof {
        assert(rev@ =~= hash@.reverse());
    }
    hex_encode(rev.as_slice())
}

/// Copies a transaction output; the copy locks the same value with the
/// same script.
pub fn clone_tx_output(o: &TxOutput) -> (r: TxOutput)
    ensures
        r.value == o.value,
        r.script.ops_v() == o.script.ops_v(),
        r.script.is_minimal_push == o.script.is_minimal_push,
{
    TxOutput { value: o.value, script: crate::script::clone_script(&o.script) }
}

/// Copies a list of transaction outputs.
pub fn clone_tx_outputs(v: &Vec<TxOutput>) -> (r: Vec<TxOutput>)
    ensures
        r@.len() == v@.len(),
        forall|j: int|
            0 <= j < v@.len() ==> {
                &&& (#[trigger] r@[j]).value == v@[j].value
                &&& r@[j].script.ops_v() == v@[j].script.ops_v()
                &&& r@[j].script.is_minimal_push == v@[j].script.is_minimal_push
            },
{
    let mut out: Vec<TxOutput> = Vec::new();
    let mut i: usize = 0;
    while i < v.len()
        invariant
            i <= v@.len(),
            out@.len() == i,
            forall|j: int|
                0 <= j < i ==> {
                    &&& (#[trigger] out@[j]).value == v@[j].value
                    &&& out@[j].script.ops_v() == v@[j].script.ops_v()
                    &&& out@[j].script.is_minimal_push == v@[j].script.is_minimal_push
                },
        decreases v@.len() - i,
    {
        out.push(clone_tx_output(&v[i]));
        i += 1;
    }
    out
}

} // verus!
