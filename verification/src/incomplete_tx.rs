//! The signature preimage with its per-field write flags, and the
//! transaction builder that collects signing contexts and outputs,
//! produces preimages, and signs.

use vstd::prelude::*;
use crate::hash::{double_sha256, dsha256_of};
use crate::outputs::{
    OutputDesc, desc_script_code_minimal, desc_script_code_ops, desc_sig_script_ops,
    desc_spendable, desc_value, desc_wf, enforced_count,
};
use crate::script::{Script, script_bytes};
use crate::secp::{derive_pub_key, ecdsa_sig_der_of, is_valid_secret_key, pubkey_of, sign_der};
use crate::serialize::{
    i32_le_bytes, u32_le_bytes, u64_le_bytes, var_str_bytes, write_i32_le, write_u32_le,
    write_u64_le, write_var_str,
};
use crate::tx::{
    Tx, TxInput, TxOutpoint, TxOutput, outpoint_bytes, tx_outputs_bytes,
};

verus! {

/// A spendable coin with the key that signs for it: the outpoint it sits
/// at, the descriptor of the output being spent, the input's sequence,
/// and the 32-byte secret key.
pub struct Utxo {
    pub outpoint: TxOutpoint,
    pub output: OutputDesc,
    pub sequence: u32,
    pub key: [u8; 32],
}

/// A signing context is usable when its output can be spent, serializes,
/// and its key is a valid scalar.
pub open spec fn utxo_wf(u: Utxo) -> bool {
    &&& desc_wf(u.output)
    &&& desc_spendable(u.output)
    &&& is_valid_secret_key(u.key@)
}

#[derive(Clone, Debug)]
pub struct PreImage {
    pub version: i32,
    pub hash_prevouts: [u8; 32],
    pub hash_sequence: [u8; 32],
    pub outpoint: TxOutpoint,
    pub script_code: Script,
    pub value: u64,
    pub sequence: u32,
    pub hash_outputs: [u8; 32],
    pub lock_time: u32,
    pub sighash_type: u32,
}

#[derive(Clone, Copy, Debug, PartialEq, Eq, Structural)]
pub struct PreImageWriteFlags {
    pub version: bool,
    pub hash_prevouts: bool,
    pub hash_sequence: bool,
    pub outpoint: bool,
    pub script_code: bool,
    pub value: bool,
    pub sequence: bool,
    pub hash_outputs: bool,
    pub lock_time: bool,
    pub sighash_type: bool,
}

/// All ten fields selected.
pub open spec fn all_flags() -> PreImageWriteFlags {
    PreImageWriteFlags {
        version: true,
        hash_prevouts: true,
        hash_sequence: true,
        outpoint: true,
        script_code: true,
        value: true,
        sequence: true,
        hash_outputs: true,
        lock_time: true,
        sighash_type: true,
    }
}

/// Everything before the outputs hash.
pub open spec fn begin_flags() -> PreImageWriteFlags {
    PreImageWriteFlags {
        version: true,
        hash_prevouts: true,
        hash_sequence: true,
        outpoint: true,
        script_code: true,
        value: true,
        sequence: true,
        hash_outputs: false,
        lock_time: false,
        sighash_type: false,
    }
}

/// Everything after the outputs hash.
pub open spec fn end_flags() -> PreImageWriteFlags {
    PreImageWriteFlags {
        version: false,
        hash_prevouts: false,
        hash_sequence: false,
        outpoint: false,
        script_code: false,
        value: false,
        sequence: false,
        hash_outputs: false,
        lock_time: true,
        sighash_type: true,
    }
}

/// The serialized preimage, restricted to the selected fields.
pub open spec fn pre_image_bytes(p: PreImage, f: PreImageWriteFlags) -> Seq<u8> {
    (if f.version {
        i32_le_bytes(p.version)
    } else {
        Seq::empty()
    }) + (if f.hash_prevouts {
        p.hash_prevouts@
    } else {
        Seq::empty()
    }) + (if f.hash_sequence {
        p.hash_sequence@
    } else {
        Seq::empty()
    }) + (if f.outpoint {
        outpoint_bytes(p.outpoint)
    } else {
        Seq::empty()
    }) + (if f.script_code {
        var_str_bytes(p.script_code.bytes())
    } else {
        Seq::empty()
    }) + (if f.value {
        u64_le_bytes(p.value)
    } else {
        Seq::empty()
    }) + (if f.sequence {
        u32_le_bytes(p.sequence)
    } else {
        Seq::empty()
    }) + (if f.hash_outputs {
        p.hash_outputs@
    } else {
        Seq::empty()
    }) + (if f.lock_time {
        u32_le_bytes(p.lock_time)
    } else {
        Seq::empty()
    }) + (if f.sighash_type {
        u32_le_bytes(p.sighash_type)
    } else {
        Seq::empty()
    })
}

/// Preimage fragmentation: the head fragment, the outputs hash, and the
/// tail fragment together are exactly the whole preimage.
pub proof fn lemma_pre_image_fragments(p: PreImage)
    ensures
        pre_image_bytes(p, begin_flags()) + p.hash_outputs@ + pre_image_bytes(p, end_flags())
            == pre_image_bytes(p, all_flags()),
{
    assert(pre_image_bytes(p, begin_flags()) + p.hash_outputs@ + pre_image_bytes(p, end_flags())
        =~= pre_image_bytes(p, all_flags()));
}

/// A serialized preimage is at most the fixed fields plus the
/// length-prefixed script-code.
#[verifier::rlimit(100)]
#[verifier::spinoff_prover]
pub proof fn lemma_pre_image_bytes_len(p: PreImage, f: PreImageWriteFlags)
    ensures
        pre_image_bytes(p, f).len() <= 165 + p.script_code.bytes().len(),
{
    assert(crate::serialize::var_int_bytes(p.script_code.bytes().len() as u64).len() <= 9);
    assert(var_str_bytes(p.script_code.bytes()).len() <= 9 + p.script_code.bytes().len());
    assert(outpoint_bytes(p.outpoint).len() == 36);
    assert(i32_le_bytes(p.version).len() == 4);
    assert(u64_le_bytes(p.value).len() == 8);
    assert(u32_le_bytes(p.sequence).len() == 4);
    assert(u32_le_bytes(p.lock_time).len() == 4);
    assert(u32_le_bytes(p.sighash_type).len() == 4);
}

/// The first five fields of the flag-selected serialization.
pub open spec fn pre_image_head_bytes(p: PreImage, f: PreImageWriteFlags) -> Seq<u8> {
    (if f.version {
        i32_le_bytes(p.version)
    } else {
        Seq::empty()
    }) + (if f.hash_prevouts {
        p.hash_prevouts@
    } else {
        Seq::empty()
    }) + (if f.hash_sequence {
        p.hash_sequence@
    } else {
        Seq::empty()
    }) + (if f.outpoint {
        outpoint_bytes(p.outpoint)
    } else {
        Seq::empty()
    }) + (if f.script_code {
        var_str_bytes(p.script_code.bytes())
    } else {
        Seq::empty()
    })
}

/// The last five fields of the flag-selected serialization.
pub open spec fn pre_image_tail_bytes(p: PreImage, f: PreImageWriteFlags) -> Seq<u8> {
    (if f.value {
        u64_le_bytes(p.value)
    } else {
        Seq::empty()
    }) + (if f.sequence {
        u32_le_bytes(p.sequence)
    } else {
        Seq::empty()
    }) + (if f.hash_outputs {
        p.hash_outputs@
    } else {
        Seq::empty()
    }) + (if f.lock_time {
        u32_le_bytes(p.lock_time)
    } else {
        Seq::empty()
    }) + (if f.sighash_type {
        u32_le_bytes(p.sighash_type)
    } else {
        Seq::empty()
    })
}

impl PreImage {
    #[verifier::rlimit(100)]
    #[verifier::spinoff_prover]
    fn write_head_fields(&self, write: &mut Vec<u8>, flags: PreImageWriteFlags)
        requires
            self.script_code.wf(),
        ensures
            final(write)@ == old(write)@ + pre_image_head_bytes(*self, flags),
    {
        let ghost s1 = if flags.version {
            i32_le_bytes(self.version)
        } else {
            Seq::<u8>::empty()
        };
        let ghost s2 = if flags.hash_prevouts {
            self.hash_prevouts@
        } else {
            Seq::<u8>::empty()
        };
        let ghost s3 = if flags.hash_sequence {
            self.hash_sequence@
        } else {
            Seq::<u8>::empty()
        };
        let ghost s4 = if flags.outpoint {
            outpoint_bytes(self.outpoint)
        } else {
            Seq::<u8>::empty()
        };
        let ghost s5 = if flags.script_code {
            var_str_bytes(self.script_code.bytes())
        } else {
            Seq::<u8>::empty()
        };
        if flags.version {
            write_i32_le(write, self.version);
        }
        assert(write@ =~= old(write)@ + s1);
        if flags.hash_prevouts {
            write.extend_from_slice(self.hash_prevouts.as_slice());
        }
        assert(write@ =~= (old(write)@ + s1) + s2);
        if flags.hash_sequence {
            write.extend_from_slice(self.hash_sequence.as_slice());
        }
        assert(write@ =~= ((old(write)@ + s1) + s2) + s3);
        if flags.outpoint {
            write.extend_from_slice(self.outpoint.tx_hash.as_slice());
            write_u32_le(write, self.outpoint.output_idx);
        }
        assert(write@ =~= (((old(write)@ + s1) + s2) + s3) + s4);
        if flags.script_code {
            let script = self.script_code.to_vec();
            write_var_str(write, script.as_slice());
        }
        assert(write@ =~= ((((old(write)@ + s1) + s2) + s3) + s4) + s5);
        assert(write@ =~= old(write)@ + pre_image_head_bytes(*self, flags));
    }

    #[verifier::rlimit(100)]
    #[verifier::spinoff_prover]
    fn write_tail_fields(&self, write: &mut Vec<u8>, flags: PreImageWriteFlags)
        ensures
            final(write)@ == old(write)@ + pre_image_tail_bytes(*self, flags),
    {
        let ghost s6 = if flags.value {
            u64_le_bytes(self.value)
        } else {
            Seq::<u8>::empty()
        };
        let ghost s7 = if flags.sequence {
            u32_le_bytes(self.sequence)
        } else {
            Seq::<u8>::empty()
        };
        let ghost s8 = if flags.hash_outputs {
            self.hash_outputs@
        } else {
            Seq::<u8>::empty()
        };
        let ghost s9 = if flags.lock_time {
            u32_le_bytes(self.lock_time)
        } else {
            Seq::<u8>::empty()
        };
        let ghost s10 = if flags.sighash_type {
            u32_le_bytes(self.sighash_type)
        } else {
            Seq::<u8>::empty()
        };
        if flags.value {
            write_u64_le(write, self.value);
        }
        assert(write@ =~= old(write)@ + s6);
        if flags.sequence {
            write_u32_le(write, self.sequence);
        }
        assert(write@ =~= (old(write)@ + s6) + s7);
        if flags.hash_outputs {
            write.extend_from_slice(self.hash_outputs.as_slice());
        }
        assert(write@ =~= ((old(write)@ + s6) + s7) + s8);
        if flags.lock_time {
            write_u32_le(write, self.lock_time);
        }
        assert(write@ =~= (((old(write)@ + s6) + s7) + s8) + s9);
        if flags.sighash_type {
            write_u32_le(write, self.sighash_type);
        }
        assert(write@ =~= ((((old(write)@ + s6) + s7) + s8) + s9) + s10);
        assert(write@ =~= old(write)@ + pre_image_tail_bytes(*self, flags));
    }

    /// Appends the selected fields of the preimage.
    #[verifier::rlimit(100)]
    #[verifier::spinoff_prover]
    pub fn write_to_stream_flags(&self, write: &mut Vec<u8>, flags: PreImageWriteFlags)
        requires
            self.script_code.wf(),
        ensures
            final(write)@ == old(write)@ + pre_image_bytes(*self, flags),
    {
        self.write_head_fields(write, flags);
        self.write_tail_fields(write, flags);
        proof {
            assert(pre_image_bytes(*self, flags) =~= pre_image_head_bytes(*self, flags)
                + pre_image_tail_bytes(*self, flags));
            assert(write@ =~= old(write)@ + pre_image_bytes(*self, flags));
        }
    }

    /// Appends the whole serialized preimage.
    pub fn write_to_stream(&self, write: &mut Vec<u8>)
        requires
            self.script_code.wf(),
        ensures
            final(write)@ == old(write)@ + pre_image_bytes(*self, all_flags()),
    {
        self.write_to_stream_flags(
            write,
            PreImageWriteFlags {
                version: true,
                hash_prevouts: true,
                hash_sequence: true,
                outpoint: true,
                script_code: true,
                value: true,
                sequence: true,
                hash_outputs: true,
                lock_time: true,
                sighash_type: true,
            },
        );
    }
}

/// The concatenated outpoints of the inputs, hashed into
/// `hash_prevouts`.
pub open spec fn prevouts_bytes(inputs: Seq<Utxo>) -> Seq<u8>
    decreases inputs.len(),
{
    if inputs.len() == 0 {
        Seq::empty()
    } else {
        outpoint_bytes(inputs.first().outpoint) + prevouts_bytes(inputs.drop_first())
    }
}

/// The concatenated sequence fields of the inputs, hashed into
/// `hash_sequence`.
pub open spec fn sequences_bytes(inputs: Seq<Utxo>) -> Seq<u8>
    decreases inputs.len(),
{
    if inputs.len() == 0 {
        Seq::empty()
    } else {
        u32_le_bytes(inputs.first().sequence) + sequences_bytes(inputs.drop_first())
    }
}

proof fn lemma_prevouts_bytes_push(s: Seq<Utxo>, u: Utxo)
    ensures
        prevouts_bytes(s.push(u)) == prevouts_bytes(s) + outpoint_bytes(u.outpoint),
    decreases s.len(),
{
    if s.len() == 0 {
        assert(s.push(u).drop_first() =~= s);
        assert(prevouts_bytes(s.push(u)) =~= prevouts_bytes(s) + outpoint_bytes(u.outpoint));
    } else {
        assert(s.push(u).drop_first() =~= s.drop_first().push(u));
        lemma_prevouts_bytes_push(s.drop_first(), u);
        assert(prevouts_bytes(s.push(u)) =~= prevouts_bytes(s) + outpoint_bytes(u.outpoint));
    }
}

proof fn lemma_sequences_bytes_push(s: Seq<Utxo>, u: Utxo)
    ensures
        sequences_bytes(s.push(u)) == sequences_bytes(s) + u32_le_bytes(u.sequence),
    decreases s.len(),
{
    if s.len() == 0 {
        assert(s.push(u).drop_first() =~= s);
        assert(sequences_bytes(s.push(u)) =~= sequences_bytes(s) + u32_le_bytes(u.sequence));
    } else {
        assert(s.push(u).drop_first() =~= s.drop_first().push(u));
        lemma_sequences_bytes_push(s.drop_first(), u);
        assert(sequences_bytes(s.push(u)) =~= sequences_bytes(s) + u32_le_bytes(u.sequence));
    }
}

/// The serialized script-code of the output that input `i` spends.
pub open spec fn builder_script_code_bytes(b: IncompleteTx, i: int) -> Seq<u8> {
    script_bytes(
        desc_script_code_ops(b.inputs@[i].output),
        desc_script_code_minimal(b.inputs@[i].output),
    )
}

/// The whole serialized preimage of input `i`, written out from the
/// builder's own fields.
pub open spec fn builder_pre_image_all(b: IncompleteTx, i: int, sighash_type: u32) -> Seq<u8> {
    builder_pre_image_begin(b, i) + dsha256_of(tx_outputs_bytes(b.outputs@))
        + builder_pre_image_end(b, sighash_type)
}

/// The preimage head of input `i`: everything before the outputs hash.
pub open spec fn builder_pre_image_begin(b: IncompleteTx, i: int) -> Seq<u8> {
    i32_le_bytes(b.version) + dsha256_of(prevouts_bytes(b.inputs@)) + dsha256_of(
        sequences_bytes(b.inputs@),
    ) + outpoint_bytes(b.inputs@[i].outpoint) + var_str_bytes(builder_script_code_bytes(b, i))
        + u64_le_bytes(desc_value(b.inputs@[i].output)) + u32_le_bytes(b.inputs@[i].sequence)
}

/// The preimage tail: the lock time and the sighash type.
pub open spec fn builder_pre_image_end(b: IncompleteTx, sighash_type: u32) -> Seq<u8> {
    u32_le_bytes(b.lock_time) + u32_le_bytes(sighash_type)
}

/// What holds of the deterministic signature of input `j` once it has
/// been produced: its public key and DER bytes parse, and it verifies
/// for the preimage digest under the derived public key.
pub open spec fn signing_facts(b: IncompleteTx, j: int) -> bool {
    let key = b.inputs@[j].key@;
    let digest = dsha256_of(builder_pre_image_all(b, j, 0x41));
    &&& crate::secp::pubkey_parses(pubkey_of(key))
    &&& crate::secp::sig_der_parses(ecdsa_sig_der_of(key, digest))
    &&& crate::secp::ecdsa_verifies(digest, ecdsa_sig_der_of(key, digest), pubkey_of(key))
}

/// What a signed input must hold: the outpoint and sequence of its
/// signing context, and the unlocking script assembled from the
/// deterministic signature over the preimage digest.
#[verifier::opaque]
pub open spec fn signed_input_matches(b: IncompleteTx, j: int, input: TxInput) -> bool {
    &&& input.outpoint == b.inputs@[j].outpoint
    &&& input.sequence == b.inputs@[j].sequence
    &&& input.script.ops_v() == desc_sig_script_ops(
        b.inputs@[j].output,
        ecdsa_sig_der_of(
            b.inputs@[j].key@,
            dsha256_of(builder_pre_image_all(b, j, 0x41)),
        ).push(0x41),
        pubkey_of(b.inputs@[j].key@),
        builder_pre_image_all(b, j, 0x41),
        builder_pre_image_begin(b, j),
        builder_pre_image_end(b, 0x41),
        b.outputs@,
    )
}

/// A preimage whose fields match the builder serializes to the builder's
/// own preimage bytes, whole and fragment by fragment.
proof fn lemma_builder_pre_image_bytes(b: IncompleteTx, i: int, sighash_type: u32, p: PreImage)
    requires
        pre_image_matches(b, i, sighash_type, p),
    ensures
        pre_image_bytes(p, all_flags()) == builder_pre_image_all(b, i, sighash_type),
        pre_image_bytes(p, begin_flags()) == builder_pre_image_begin(b, i),
        pre_image_bytes(p, end_flags()) == builder_pre_image_end(b, sighash_type),
{
    reveal(pre_image_matches);
    assert(p.script_code.bytes() == builder_script_code_bytes(b, i));
    assert(pre_image_bytes(p, begin_flags()) =~= builder_pre_image_begin(b, i));
    assert(pre_image_bytes(p, end_flags()) =~= builder_pre_image_end(b, sighash_type));
    lemma_pre_image_fragments(p);
    assert(pre_image_bytes(p, all_flags()) =~= builder_pre_image_all(b, i, sighash_type));
}

/// The transaction under construction: value-typed signing contexts and
/// outputs, consumed by `sign`.
pub struct IncompleteTx {
    pub version: i32,
    pub inputs: Vec<Utxo>,
    pub outputs: Vec<TxOutput>,
    pub lock_time: u32,
}

/// What the preimage of input `i` must hold, field by field.
#[verifier::opaque]
pub open spec fn pre_image_matches(b: IncompleteTx, i: int, sighash_type: u32, p: PreImage) -> bool {
    &&& p.version == b.version
    &&& p.hash_prevouts@ == dsha256_of(prevouts_bytes(b.inputs@))
    &&& p.hash_sequence@ == dsha256_of(sequences_bytes(b.inputs@))
    &&& p.outpoint == b.inputs@[i].outpoint
    &&& p.script_code.ops_v() == desc_script_code_ops(b.inputs@[i].output)
    &&& p.script_code.is_minimal_push == desc_script_code_minimal(b.inputs@[i].output)
    &&& p.script_code.wf()
    &&& p.value == desc_value(b.inputs@[i].output)
    &&& p.sequence == b.inputs@[i].sequence
    &&& p.hash_outputs@ == dsha256_of(tx_outputs_bytes(b.outputs@))
    &&& p.lock_time == b.lock_time
    &&& p.sighash_type == sighash_type
}

impl IncompleteTx {
    pub open spec fn wf(&self) -> bool {
        &&& forall|i: int| 0 <= i < self.inputs@.len() ==> utxo_wf(#[trigger] self.inputs@[i])
        &&& forall|i: int|
            0 <= i < self.outputs@.len() ==> (#[trigger] self.outputs@[i]).script.wf()
        &&& forall|i: int|
            0 <= i < self.inputs@.len() ==> enforced_count((#[trigger] self.inputs@[i]).output)
                <= self.outputs@.len()
    }

    pub fn new_simple() -> (r: IncompleteTx)
        ensures
            r.version == 1,
            r.inputs@.len() == 0,
            r.outputs@.len() == 0,
            r.lock_time == 0,
    {
        IncompleteTx { version: 1, inputs: Vec::new(), outputs: Vec::new(), lock_time: 0 }
    }

    pub fn add_utxo(&mut self, utxo: Utxo) -> (r: usize)
        ensures
            final(self).inputs@ == old(self).inputs@.push(utxo),
            final(self).outputs@ == old(self).outputs@,
            final(self).version == old(self).version,
            final(self).lock_time == old(self).lock_time,
            r == old(self).inputs@.len(),
    {
        let r = self.inputs.len();
        self.inputs.push(utxo);
        r
    }

    pub fn add_output(&mut self, output: &OutputDesc) -> (r: usize)
        requires
            desc_wf(*output),
        ensures
            final(self).outputs@.len() == old(self).outputs@.len() + 1,
            forall|j: int|
                0 <= j < old(self).outputs@.len() ==> final(self).outputs@[j] == old(
                    self,
                ).outputs@[j],
            final(self).outputs@.last().value == desc_value(*output),
            final(self).outputs@.last().script.ops_v() == crate::outputs::desc_script_ops(
                *output,
            ),
            final(self).outputs@.last().script.is_minimal_push == crate::outputs::desc_minimal(
                *output,
            ),
            final(self).outputs@.last().script.wf(),
            final(self).inputs@ == old(self).inputs@,
            final(self).version == old(self).version,
            final(self).lock_time == old(self).lock_time,
            r == old(self).outputs@.len(),
    {
        let r = self.outputs.len();
        self.outputs.push(output.to_tx_output());
        r
    }

    pub fn replace_output(&mut self, idx: usize, output: &OutputDesc)
        requires
            desc_wf(*output),
            idx < old(self).outputs@.len(),
        ensures
            final(self).outputs@.len() == old(self).outputs@.len(),
            forall|j: int|
                0 <= j < old(self).outputs@.len() && j != idx ==> final(self).outputs@[j] == old(
                    self,
                ).outputs@[j],
            final(self).outputs@[idx as int].value == desc_value(*output),
            final(self).outputs@[idx as int].script.ops_v() == crate::outputs::desc_script_ops(
                *output,
            ),
            final(self).outputs@[idx as int].script.wf(),
            final(self).inputs@ == old(self).inputs@,
            final(self).version == old(self).version,
            final(self).lock_time == old(self).lock_time,
    {
        let replacement = output.to_tx_output();
        self.outputs.set(idx, replacement);
    }

    pub fn remove_output(&mut self, idx: usize)
        requires
            idx < old(self).outputs@.len(),
        ensures
            final(self).outputs@ == old(self).outputs@.remove(idx as int),
            final(self).inputs@ == old(self).inputs@,
            final(self).version == old(self).version,
            final(self).lock_time == old(self).lock_time,
    {
        self.outputs.remove(idx);
    }

    /// Builds one preimage per input; they share the three digests over
    /// the prevouts, the sequences and the outputs.
    pub fn pre_images(&self, sighash_type: u32) -> (r: Vec<PreImage>)
        requires
            self.wf(),
        ensures
            r@.len() == self.inputs@.len(),
            forall|i: int|
                0 <= i < r@.len() ==> pre_image_matches(*self, i, sighash_type, #[trigger] r@[i]),
    {
        let mut outpoints_serialized: Vec<u8> = Vec::new();
        let mut sequence_serialized: Vec<u8> = Vec::new();
        let mut i: usize = 0;
        proof {
            assert(prevouts_bytes(self.inputs@.take(0)) =~= Seq::<u8>::empty());
            assert(sequences_bytes(self.inputs@.take(0)) =~= Seq::<u8>::empty());
        }
        while i < self.inputs.len()
            invariant
                i <= self.inputs@.len(),
                outpoints_serialized@ == prevouts_bytes(self.inputs@.take(i as int)),
                sequence_serialized@ == sequences_bytes(self.inputs@.take(i as int)),
            decreases self.inputs@.len() - i,
        {
            outpoints_serialized.extend_from_slice(self.inputs[i].outpoint.tx_hash.as_slice());
            write_u32_le(&mut outpoints_serialized, self.inputs[i].outpoint.output_idx);
            write_u32_le(&mut sequence_serialized, self.inputs[i].sequence);
            i += 1;
            proof {
                lemma_prevouts_bytes_push(self.inputs@.take(i - 1), self.inputs@[i - 1]);
                lemma_sequences_bytes_push(self.inputs@.take(i - 1), self.inputs@[i - 1]);
                assert(self.inputs@.take(i as int) =~= self.inputs@.take(i - 1).push(
                    self.inputs@[i - 1],
                ));
                assert(outpoints_serialized@ =~= prevouts_bytes(self.inputs@.take(i as int)));
                assert(sequence_serialized@ =~= sequences_bytes(self.inputs@.take(i as int)));
            }
        }
        proof {
            assert(self.inputs@.take(self.inputs@.len() as int) =~= self.inputs@);
        }
        let hash_prevouts = double_sha256(outpoints_serialized.as_slice());
        let hash_sequence = double_sha256(sequence_serialized.as_slice());
        let outputs_serialized = crate::outputs::serialize_outputs(&self.outputs, 0);
        proof {
            assert(self.outputs@.skip(0) =~= self.outputs@);
        }
        let hash_outputs = double_sha256(outputs_serialized.as_slice());
        let mut pre_images: Vec<PreImage> = Vec::new();
        let mut k: usize = 0;
        while k < self.inputs.len()
            invariant
                self.wf(),
                k <= self.inputs@.len(),
                pre_images@.len() == k,
                hash_prevouts@ == dsha256_of(prevouts_bytes(self.inputs@)),
                hash_sequence@ == dsha256_of(sequences_bytes(self.inputs@)),
                hash_outputs@ == dsha256_of(tx_outputs_bytes(self.outputs@)),
                forall|j: int|
                    0 <= j < k ==> pre_image_matches(
                        *self,
                        j,
                        sighash_type,
                        #[trigger] pre_images@[j],
                    ),
            decreases self.inputs@.len() - k,
        {
            let input = &self.inputs[k];
            pre_images.push(
                PreImage {
                    version: self.version,
                    hash_prevouts,
                    hash_sequence,
                    outpoint: input.outpoint,
                    script_code: input.output.script_code(),
                    value: input.output.value(),
                    sequence: input.sequence,
                    hash_outputs,
                    lock_time: self.lock_time,
                    sighash_type,
                },
            );
            k += 1;
            proof {
                reveal(pre_image_matches);
                assert(pre_image_matches(*self, k - 1, sighash_type, pre_images@[k - 1]));
            }
        }
        pre_images
    }

    /// Signs every input: the preimage is serialized and double-hashed,
    /// the input's key signs that digest, the one-byte sighash type is
    /// appended, and the descriptor's unlocking script is assembled.
    /// Signs one input: serialize its preimage, double-hash, sign with
    /// the input's key, append the sighash byte, and assemble the
    /// unlocking script.
    #[verifier::rlimit(100)]
    #[verifier::spinoff_prover]
    fn sign_one(&self, i: usize, pre_image: &PreImage) -> (r: TxInput)
        requires
            self.wf(),
            i < self.inputs@.len(),
            pre_image_matches(*self, i as int, 0x41, *pre_image),
            builder_script_code_bytes(*self, i as int).len() <= 0xffff_fe00,
            tx_outputs_bytes(self.outputs@).len() <= 0xffff_ffff,
        ensures
            signed_input_matches(*self, i as int, r),
            r.script.is_minimal_push,
            r.script.wf(),
            signing_facts(*self, i as int),
    {
        let input = &self.inputs[i];
        let ghost p = *pre_image;
        proof {
            reveal(pre_image_matches);
            assert(p.script_code.wf());
            lemma_builder_pre_image_bytes(*self, i as int, 0x41, p);
            assert(p.script_code.bytes() == builder_script_code_bytes(*self, i as int));
        }
        let mut pre_image_serialized: Vec<u8> = Vec::new();
        pre_image.write_to_stream(&mut pre_image_serialized);
        proof {
            assert(pre_image_serialized@ =~= pre_image_bytes(p, all_flags()));
        }
        let message = double_sha256(pre_image_serialized.as_slice());
        let pub_key = derive_pub_key(&input.key);
        let mut sig_ser = sign_der(&input.key, &message);
        sig_ser.push(0x41);
        proof {
            assert(sig_ser@ =~= ecdsa_sig_der_of(
                self.inputs@[i as int].key@,
                dsha256_of(pre_image_bytes(p, all_flags())),
            ).push(0x41));
        }
        let script = input.output.sig_script(
            sig_ser,
            pub_key.as_slice(),
            pre_image,
            self.outputs.as_slice(),
        );
        let r = TxInput { outpoint: input.outpoint, script, sequence: input.sequence };
        proof {
            reveal(signed_input_matches);
            assert(signed_input_matches(*self, i as int, r));
            assert(signing_facts(*self, i as int));
        }
        r
    }

    pub fn sign(&self) -> (r: Tx)
        requires
            self.wf(),
            forall|i: int|
                0 <= i < self.inputs@.len() ==> #[trigger] builder_script_code_bytes(
                    *self,
                    i,
                ).len() <= 0xffff_fe00,
            tx_outputs_bytes(self.outputs@).len() <= 0xffff_ffff,
        ensures
            r.wf(),
            r.version == self.version,
            r.outputs@.len() == self.outputs@.len(),
            forall|j: int|
                0 <= j < self.outputs@.len() ==> {
                    &&& (#[trigger] r.outputs@[j]).value == self.outputs@[j].value
                    &&& r.outputs@[j].script.ops_v() == self.outputs@[j].script.ops_v()
                    &&& r.outputs@[j].script.is_minimal_push
                        == self.outputs@[j].script.is_minimal_push
                },
            r.lock_time == self.lock_time,
            r.inputs@.len() == self.inputs@.len(),
            forall|i: int|
                0 <= i < r.inputs@.len() ==> signed_input_matches(
                    *self,
                    i,
                    #[trigger] r.inputs@[i],
                ),
            forall|i: int|
                0 <= i < r.inputs@.len() ==> (#[trigger] r.inputs@[i]).script.is_minimal_push,
            forall|i: int| 0 <= i < self.inputs@.len() ==> #[trigger] signing_facts(*self, i),
    {
        let sighash_type: u32 = 0x41;
        let pre_images = self.pre_images(sighash_type);
        let mut tx_inputs: Vec<TxInput> = Vec::new();
        let mut i: usize = 0;
        while i < self.inputs.len()
            invariant
                self.wf(),
                forall|j: int|
                    0 <= j < self.inputs@.len() ==> #[trigger] builder_script_code_bytes(
                        *self,
                        j,
                    ).len() <= 0xffff_fe00,
                tx_outputs_bytes(self.outputs@).len() <= 0xffff_ffff,
                i <= self.inputs@.len(),
                pre_images@.len() == self.inputs@.len(),
                forall|j: int|
                    0 <= j < pre_images@.len() ==> pre_image_matches(
                        *self,
                        j,
                        0x41,
                        #[trigger] pre_images@[j],
                    ),
                tx_inputs@.len() == i,
                forall|j: int|
                    0 <= j < i ==> signed_input_matches(*self, j, #[trigger] tx_inputs@[j]),
                forall|j: int|
                    0 <= j < i ==> (#[trigger] tx_inputs@[j]).script.is_minimal_push
                        && tx_inputs@[j].script.wf(),
                forall|j: int| 0 <= j < i ==> #[trigger] signing_facts(*self, j),
            decreases self.inputs@.len() - i,
        {
            let signed = self.sign_one(i, &pre_images[i]);
            tx_inputs.push(signed);
            i += 1;
        }
        let result = Tx {
            version: self.version,
            inputs: tx_inputs,
            outputs: crate::tx::clone_tx_outputs(&self.outputs),
            lock_time: self.lock_time,
        };
        proof {
            assert forall|j: int|
                0 <= j < result.outputs@.len() implies (
            #[trigger] result.outputs@[j]).script.wf() by {
                assert(result.outputs@[j].script.ops_v() == self.outputs@[j].script.ops_v());
                assert(self.outputs@[j].script.wf());
            }
        }
        result
    }

    /// A coarse size estimate: the fixed input weight prices
    /// pay-to-pubkey-hash spends; covenant spends run larger.
    pub fn estimate_size(&self) -> (r: u64)
        requires
            self.wf(),
            4 + 148 * self.inputs@.len() + 1 + output_script_sizes(self.outputs@) + 4 <= u64::MAX,
        ensures
            r as int == 4 + 148 * self.inputs@.len() + 1 + output_script_sizes(self.outputs@) + 4,
    {
        proof {
            lemma_output_script_sizes_nonneg(self.outputs@);
        }
        let mut size: u64 = 4;
        size = size + (self.inputs.len() as u64) * 148;
        size = size + 1;
        let mut i: usize = 0;
        while i < self.outputs.len()
            invariant
                self.wf(),
                4 + 148 * self.inputs@.len() + 1 + output_script_sizes(self.outputs@) + 4
                    <= u64::MAX,
                i <= self.outputs@.len(),
                size as int == 4 + 148 * self.inputs@.len() + 1 + output_script_sizes(
                    self.outputs@.take(i as int),
                ),
            decreases self.outputs@.len() - i,
        {
            let script = self.outputs[i].script.to_vec();
            proof {
                lemma_output_script_sizes_push(self.outputs@.take(i as int), self.outputs@[i as int]);
                assert(self.outputs@.take(i + 1) =~= self.outputs@.take(i as int).push(
                    self.outputs@[i as int],
                ));
                lemma_output_script_sizes_prefix(self.outputs@, i + 1);
            }
            size = size + script.len() as u64;
            i += 1;
        }
        proof {
            assert(self.outputs@.take(self.outputs@.len() as int) =~= self.outputs@);
        }
        size = size + 4;
        size
    }
}

/// The summed serialized script lengths of the outputs.
pub open spec fn output_script_sizes(outputs: Seq<TxOutput>) -> int
    decreases outputs.len(),
{
    if outputs.len() == 0 {
        0int
    } else {
        outputs.first().script.bytes().len() + output_script_sizes(outputs.drop_first())
    }
}

proof fn lemma_output_script_sizes_push(s: Seq<TxOutput>, o: TxOutput)
    ensures
        output_script_sizes(s.push(o)) == output_script_sizes(s) + o.script.bytes().len(),
    decreases s.len(),
{
    if s.len() == 0 {
        assert(s.push(o).drop_first() =~= s);
    } else {
        assert(s.push(o).drop_first() =~= s.drop_first().push(o));
        lemma_output_script_sizes_push(s.drop_first(), o);
    }
}

proof fn lemma_output_script_sizes_nonneg(s: Seq<TxOutput>)
    ensures
        output_script_sizes(s) >= 0,
    decreases s.len(),
{
    if s.len() > 0 {
        lemma_output_script_sizes_nonneg(s.drop_first());
    }
}

/// A prefix of an output list never sums to more than the whole list.
proof fn lemma_output_script_sizes_prefix(s: Seq<TxOutput>, k: int)
    requires
        0 <= k <= s.len(),
    ensures
        output_script_sizes(s.take(k)) <= output_script_sizes(s),
    decreases k,
{
    if k == 0 {
        assert(s.take(0) =~= Seq::<TxOutput>::empty());
        lemma_output_script_sizes_nonneg(s);
    } else {
        assert(s.take(k).drop_first() =~= s.drop_first().take(k - 1));
        lemma_output_script_sizes_prefix(s.drop_first(), k - 1);
    }
}

} // verus!
