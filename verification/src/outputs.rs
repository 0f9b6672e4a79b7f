//! The output descriptors: what each kind of output locks with, what goes
//! into the preimage's script-code slot when it is spent, and the
//! unlocking script a spender provides.

use vstd::prelude::*;
use crate::address::Address;
use crate::hash::{hash160, hash160_of};
use crate::incomplete_tx::{PreImage, PreImageWriteFlags, pre_image_bytes, begin_flags, end_flags};
use crate::script::{Op, OpCodeType, OpV, Script, op_view, ops_view, op_wf, ops_wf, script_bytes};
use crate::serialize::{u32_be_bytes, u64_be_bytes, write_u32_be, write_u64_be};
use crate::tx::{
    TxOutput, tx_outputs_bytes, tx_output_bytes, lemma_tx_outputs_bytes_push,
    lemma_tx_outputs_bytes_split,
};

verus! {

#[derive(Clone, Debug)]
pub struct P2PKHOutput {
    pub value: u64,
    pub address: Address,
}

#[derive(Clone, Debug)]
pub struct P2PKHDsvOutput {
    pub value: u64,
    pub address: Address,
}

#[derive(Clone, Debug)]
pub struct OpReturnOutput {
    pub pushes: Vec<Vec<u8>>,
    pub is_minimal_push: bool,
}

#[derive(Clone, Debug)]
pub struct SLPSendOutput {
    pub token_type: u8,
    pub token_id: [u8; 32],
    pub output_quantities: Vec<u64>,
}

#[derive(Clone, Debug)]
pub struct TradeOfferOutput {
    pub tx_id: [u8; 32],
    pub output_idx: u32,
    pub sell_amount: u64,
    pub buy_amount: u64,
    pub receiving_address: Address,
    pub cancel_address: Address,
}

/// The covenant output: only a transaction whose first outputs are
/// exactly the enforced ones, or a cancellation by the holder of the
/// cancel key, can spend it.
#[derive(Clone, Debug)]
pub struct EnforceOutputsOutput {
    pub value: u64,
    pub cancel_address: Address,
    pub enforced_outputs: Vec<TxOutput>,
    pub is_cancel: Option<bool>,
}

/// An output descriptor: a sum over the output kinds, with the
/// pay-to-script-hash wrapper nesting another descriptor.
#[derive(Debug)]
pub enum OutputDesc {
    P2pkh(P2PKHOutput),
    P2pkhDsv(P2PKHDsvOutput),
    P2sh(Box<OutputDesc>),
    OpReturn(OpReturnOutput),
    SlpSend(SLPSendOutput),
    EnforceOutputs(EnforceOutputsOutput),
}

/// The locking script of a pay-to-pubkey-hash output.
pub open spec fn p2pkh_ops(hash: Seq<u8>) -> Seq<OpV> {
    seq![
        OpV::Code(0x76),
        OpV::Code(0xa9),
        OpV::Push(hash),
        OpV::Code(0x88),
        OpV::Code(0xac),
    ]
}

/// The locking script of a pay-to-script-hash output.
pub open spec fn p2sh_ops(script_hash: Seq<u8>) -> Seq<OpV> {
    seq![OpV::Code(0xa9), OpV::Push(script_hash), OpV::Code(0x87)]
}

/// The pay-to-pubkey-hash variant whose spender also proves the preimage
/// with a data-signature check.
pub open spec fn dsv_ops(hash: Seq<u8>) -> Seq<OpV> {
    seq![
        OpV::Code(0x6e),
        OpV::Code(0x76),
        OpV::Code(0xa9),
        OpV::Push(hash),
        OpV::Code(0x88),
        OpV::Code(0x7c),
        OpV::Push(seq![0x41u8]),
        OpV::Code(0x7e),
        OpV::Code(0x7c),
        OpV::Code(0xad),
        OpV::Code(0x7b),
        OpV::Code(0xa8),
        OpV::Code(0x7c),
        OpV::Code(0xba),
    ]
}

/// The quantity pushes of a token send, one eight-byte big-endian value
/// each.
pub open spec fn slp_quantity_ops(qs: Seq<u64>) -> Seq<OpV>
    decreases qs.len(),
{
    if qs.len() == 0 {
        Seq::empty()
    } else {
        seq![OpV::Push(u64_be_bytes(qs.first()))] + slp_quantity_ops(qs.drop_first())
    }
}

/// The token-send announcement: protocol tag, token type, send verb,
/// token id, then the quantities.
pub open spec fn slp_ops(token_type: u8, token_id: Seq<u8>, qs: Seq<u64>) -> Seq<OpV> {
    seq![
        OpV::Code(0x6a),
        OpV::Push(seq![0x53u8, 0x4c, 0x50, 0x00]),
        OpV::Push(seq![token_type]),
        OpV::Push(seq![0x53u8, 0x45, 0x4e, 0x44]),
        OpV::Push(token_id),
    ] + slp_quantity_ops(qs)
}

/// The covenant's locking script: the buy branch reconstructs the
/// preimage from the enforced outputs and the spender's tail, checks the
/// transaction signature over it, and couples the same signature to the
/// reconstructed bytes with a data-signature check; the other branch is a
/// plain key check against the cancel hash.
pub open spec fn enforce_ops(outputs_pre: Seq<u8>, cancel_hash: Seq<u8>) -> Seq<OpV> {
    seq![
        OpV::Code(0x63),
        OpV::Push(outputs_pre),
        OpV::Code(0x7c),
        OpV::Code(0x7e),
        OpV::Code(0xaa),
        OpV::Code(0x7e),
        OpV::Code(0x7c),
        OpV::Code(0x7e),
        OpV::Code(0xa8),
        OpV::Code(0x6f),
        OpV::Code(0x75),
        OpV::Push(seq![0x41u8]),
        OpV::Code(0x7e),
        OpV::Code(0x7c),
        OpV::Code(0xad),
        OpV::Code(0x7b),
        OpV::Code(0xba),
        OpV::Code(0x67),
        OpV::Code(0x76),
        OpV::Code(0xa9),
        OpV::Push(cancel_hash),
        OpV::Code(0x88),
        OpV::Code(0xac),
        OpV::Code(0x68),
    ]
}

/// The satoshi value an output carries.
pub open spec fn desc_value(d: OutputDesc) -> u64
    decreases d,
{
    match d {
        OutputDesc::P2pkh(o) => o.value,
        OutputDesc::P2pkhDsv(o) => o.value,
        OutputDesc::P2sh(inner) => desc_value(*inner),
        OutputDesc::OpReturn(_) => 0,
        OutputDesc::SlpSend(_) => 0,
        OutputDesc::EnforceOutputs(o) => o.value,
    }
}

/// Whether an output's own locking script uses the minimal push policy.
pub open spec fn desc_minimal(d: OutputDesc) -> bool {
    match d {
        OutputDesc::OpReturn(o) => o.is_minimal_push,
        OutputDesc::SlpSend(_) => false,
        _ => true,
    }
}

/// The operations of an output's locking script.
pub open spec fn desc_script_ops(d: OutputDesc) -> Seq<OpV>
    decreases d,
{
    match d {
        OutputDesc::P2pkh(o) => p2pkh_ops(o.address.bytes@),
        OutputDesc::P2pkhDsv(o) => dsv_ops(o.address.bytes@),
        OutputDesc::P2sh(inner) => p2sh_ops(
            hash160_of(script_bytes(desc_script_ops(*inner), desc_minimal(*inner))),
        ),
        OutputDesc::OpReturn(o) => seq![OpV::Code(0x6a)] + o.pushes@.map_values(
            |p: Vec<u8>| OpV::Push(p@),
        ),
        OutputDesc::SlpSend(o) => slp_ops(o.token_type, o.token_id@, o.output_quantities@),
        OutputDesc::EnforceOutputs(o) => enforce_ops(
            tx_outputs_bytes(o.enforced_outputs@),
            o.cancel_address.bytes@,
        ),
    }
}

/// The serialized bytes of an output's locking script.
pub open spec fn desc_script_bytes(d: OutputDesc) -> Seq<u8> {
    script_bytes(desc_script_ops(d), desc_minimal(d))
}

/// The operations that fill the preimage's script-code slot when this
/// output is spent: its own script, except that a script-hash wrapper
/// reports the enclosed script.
pub open spec fn desc_script_code_ops(d: OutputDesc) -> Seq<OpV> {
    match d {
        OutputDesc::P2sh(inner) => desc_script_ops(*inner),
        _ => desc_script_ops(d),
    }
}

pub open spec fn desc_script_code_minimal(d: OutputDesc) -> bool {
    match d {
        OutputDesc::P2sh(inner) => desc_minimal(*inner),
        _ => desc_minimal(d),
    }
}

/// An output that a spending input can reference: not an announcement.
pub open spec fn desc_spendable(d: OutputDesc) -> bool
    decreases d,
{
    match d {
        OutputDesc::OpReturn(_) => false,
        OutputDesc::SlpSend(_) => false,
        OutputDesc::P2sh(inner) => desc_spendable(*inner),
        OutputDesc::EnforceOutputs(o) => o.is_cancel is Some,
        _ => true,
    }
}

/// Every push the descriptor will serialize fits its length prefix.
pub open spec fn desc_wf(d: OutputDesc) -> bool
    decreases d,
{
    match d {
        OutputDesc::P2pkh(_) => true,
        OutputDesc::P2pkhDsv(_) => true,
        OutputDesc::P2sh(inner) => desc_wf(*inner) && desc_script_bytes(*inner).len()
            <= 0xffff_ffff,
        OutputDesc::OpReturn(o) => forall|i: int|
            0 <= i < o.pushes@.len() ==> (#[trigger] o.pushes@[i])@.len() <= 0xffff_ffff,
        OutputDesc::SlpSend(_) => true,
        OutputDesc::EnforceOutputs(o) => {
            &&& forall|i: int|
                0 <= i < o.enforced_outputs@.len() ==> (
                #[trigger] o.enforced_outputs@[i]).script.wf()
            &&& tx_outputs_bytes(o.enforced_outputs@).len() <= 0xffff_ffff
        },
    }
}

/// The unlocking script of the covenant's buy branch: public key,
/// signature without its type byte, the preimage tail, the preimage head,
/// the spender's trailing outputs, and the branch selector.
pub open spec fn enforce_buy_sig_ops(
    sig: Seq<u8>,
    pubkey: Seq<u8>,
    pre_begin: Seq<u8>,
    pre_end: Seq<u8>,
    outputs_end: Seq<u8>,
) -> Seq<OpV> {
    seq![
        OpV::Push(pubkey),
        OpV::Push(sig.take(sig.len() - 1)),
        OpV::Push(pre_end),
        OpV::Push(pre_begin),
        OpV::Push(outputs_end),
        OpV::Push(seq![0x01u8]),
    ]
}

/// The operations a covenant buy spend runs through the interpreter: the
/// five value pushes of the unlocking script (the branch selector is
/// consumed by the branch opcode itself), then the sixteen operations of
/// the locking script's buy branch.
pub open spec fn covenant_buy_run_ops(
    sig: Seq<u8>,
    pubkey: Seq<u8>,
    pre_begin: Seq<u8>,
    pre_end: Seq<u8>,
    outputs_end: Seq<u8>,
    outputs_pre: Seq<u8>,
    cancel_hash: Seq<u8>,
) -> Seq<OpV> {
    enforce_buy_sig_ops(sig, pubkey, pre_begin, pre_end, outputs_end).take(5) + enforce_ops(
        outputs_pre,
        cancel_hash,
    ).subrange(1, 17)
}

/// The unlocking script an output kind demands, given the signature with
/// its trailing type byte, the public key, the serialized preimage (whole
/// and as its head and tail fragments), and the spending transaction's
/// outputs.
pub open spec fn desc_sig_script_ops(
    d: OutputDesc,
    sig: Seq<u8>,
    pubkey: Seq<u8>,
    pre_all: Seq<u8>,
    pre_begin: Seq<u8>,
    pre_end: Seq<u8>,
    outputs: Seq<TxOutput>,
) -> Seq<OpV>
    decreases d,
{
    match d {
        OutputDesc::P2pkh(_) => seq![OpV::Push(sig), OpV::Push(pubkey)],
        OutputDesc::P2pkhDsv(_) => seq![
            OpV::Push(pre_all),
            OpV::Push(sig.take(sig.len() - 1)),
            OpV::Push(pubkey),
        ],
        OutputDesc::P2sh(inner) => desc_sig_script_ops(
            *inner,
            sig,
            pubkey,
            pre_all,
            pre_begin,
            pre_end,
            outputs,
        ).push(OpV::Push(desc_script_bytes(*inner))),
        OutputDesc::OpReturn(_) => Seq::empty(),
        OutputDesc::SlpSend(_) => Seq::empty(),
        OutputDesc::EnforceOutputs(o) => if o.is_cancel == Some(true) {
            seq![OpV::Push(sig), OpV::Push(pubkey), OpV::Push(seq![0x00u8])]
        } else {
            enforce_buy_sig_ops(
                sig,
                pubkey,
                pre_begin,
                pre_end,
                tx_outputs_bytes(outputs.skip(o.enforced_outputs@.len() as int)),
            )
        },
    }
}

impl OutputDesc {
    pub fn value(&self) -> (r: u64)
        ensures
            r == desc_value(*self),
        decreases *self,
    {
        match self {
            OutputDesc::P2pkh(o) => o.value,
            OutputDesc::P2pkhDsv(o) => o.value,
            OutputDesc::P2sh(inner) => inner.value(),
            OutputDesc::OpReturn(_) => 0,
            OutputDesc::SlpSend(_) => 0,
            OutputDesc::EnforceOutputs(o) => o.value,
        }
    }

    /// Builds the locking script.
    #[verifier::rlimit(100)]
    #[verifier::spinoff_prover]
    pub fn script(&self) -> (r: Script)
        requires
            desc_wf(*self),
        ensures
            r.ops_v() == desc_script_ops(*self),
            r.is_minimal_push == desc_minimal(*self),
            r.wf(),
        decreases *self,
    {
        match self {
            OutputDesc::P2pkh(o) => {
                let mut ops: Vec<Op> = Vec::new();
                ops.push(Op::Code(OpCodeType::OpDup));
                ops.push(Op::Code(OpCodeType::OpHash160));
                let mut h: Vec<u8> = Vec::new();
                h.extend_from_slice(o.address.bytes().as_slice());
                ops.push(Op::Push(h));
                ops.push(Op::Code(OpCodeType::OpEqualVerify));
                ops.push(Op::Code(OpCodeType::OpCheckSig));
                let r = Script::new(ops);
                proof {
                    assert(r.ops_v() =~~= p2pkh_ops(o.address.bytes@));
                    assert(ops_wf(r.ops_v()));
                }
                r
            },
            OutputDesc::P2pkhDsv(o) => {
                let mut ops: Vec<Op> = Vec::new();
                ops.push(Op::Code(OpCodeType::Op2Dup));
                ops.push(Op::Code(OpCodeType::OpDup));
                ops.push(Op::Code(OpCodeType::OpHash160));
                let mut h: Vec<u8> = Vec::new();
                h.extend_from_slice(o.address.bytes().as_slice());
                ops.push(Op::Push(h));
                ops.push(Op::Code(OpCodeType::OpEqualVerify));
                ops.push(Op::Code(OpCodeType::OpSwap));
                let mut t: Vec<u8> = Vec::new();
                t.push(0x41);
                ops.push(Op::Push(t));
                ops.push(Op::Code(OpCodeType::OpCat));
                ops.push(Op::Code(OpCodeType::OpSwap));
                ops.push(Op::Code(OpCodeType::OpCheckSigVerify));
                ops.push(Op::Code(OpCodeType::OpRot));
                ops.push(Op::Code(OpCodeType::OpSha256));
                ops.push(Op::Code(OpCodeType::OpSwap));
                ops.push(Op::Code(OpCodeType::OpCheckDataSig));
                let r = Script::new(ops);
                proof {
                    assert(r.ops_v() =~~= dsv_ops(o.address.bytes@));
                    assert(ops_wf(r.ops_v()));
                }
                r
            },
            OutputDesc::P2sh(inner) => {
                let inner_bytes = inner.script().to_vec();
                let digest = hash160(inner_bytes.as_slice());
                let mut ops: Vec<Op> = Vec::new();
                ops.push(Op::Code(OpCodeType::OpHash160));
                let mut h: Vec<u8> = Vec::new();
                h.extend_from_slice(digest.as_slice());
                ops.push(Op::Push(h));
                ops.push(Op::Code(OpCodeType::OpEqual));
                let r = Script::new(ops);
                proof {
                    assert(r.ops_v() =~~= p2sh_ops(
                        hash160_of(script_bytes(desc_script_ops(**inner), desc_minimal(**inner))),
                    ));
                    assert(ops_wf(r.ops_v()));
                }
                r
            },
            OutputDesc::OpReturn(o) => {
                let mut ops: Vec<Op> = Vec::new();
                ops.push(Op::Code(OpCodeType::OpReturn));
                let mut i: usize = 0;
                proof {
                    assert(ops_view(ops@) =~~= seq![OpV::Code(0x6a)] + o.pushes@.take(
                        0,
                    ).map_values(|p: Vec<u8>| OpV::Push(p@)));
                }
                while i < o.pushes.len()
                    invariant
                        i <= o.pushes@.len(),
                        forall|j: int|
                            0 <= j < o.pushes@.len() ==> (#[trigger] o.pushes@[j])@.len()
                                <= 0xffff_ffff,
                        ops_view(ops@) == seq![OpV::Code(0x6a)] + o.pushes@.take(
                            i as int,
                        ).map_values(|p: Vec<u8>| OpV::Push(p@)),
                    decreases o.pushes@.len() - i,
                {
                    let mut copy: Vec<u8> = Vec::new();
                    copy.extend_from_slice(o.pushes[i].as_slice());
                    let ghost before = ops_view(ops@);
                    let ghost pushed = copy@;
                    ops.push(Op::Push(copy));
                    i += 1;
                    proof {
                        assert(pushed =~= o.pushes@[i - 1]@);
                        assert(ops_view(ops@) =~~= before.push(OpV::Push(o.pushes@[i - 1]@)));
                        assert(o.pushes@.take(i as int).map_values(|p: Vec<u8>| OpV::Push(p@))
                            =~~= o.pushes@.take(i - 1).map_values(
                            |p: Vec<u8>| OpV::Push(p@),
                        ).push(OpV::Push(o.pushes@[i - 1]@)));
                        assert(ops_view(ops@) =~~= seq![OpV::Code(0x6a)] + o.pushes@.take(
                            i as int,
                        ).map_values(|p: Vec<u8>| OpV::Push(p@)));
                    }
                }
                proof {
                    assert(o.pushes@.take(o.pushes@.len() as int) =~= o.pushes@);
                }
                let r = if o.is_minimal_push {
                    Script::new(ops)
                } else {
                    Script::new_non_minimal_push(ops)
                };
                proof {
                    assert(ops_wf(r.ops_v()));
                }
                r
            },
            OutputDesc::SlpSend(o) => {
                let mut ops: Vec<Op> = Vec::new();
                ops.push(Op::Code(OpCodeType::OpReturn));
                let mut tag: Vec<u8> = Vec::new();
                tag.push(0x53);
                tag.push(0x4c);
                tag.push(0x50);
                tag.push(0x00);
                proof {
                    assert(tag@ =~= seq![0x53u8, 0x4c, 0x50, 0x00]);
                }
                ops.push(Op::Push(tag));
                let mut tt: Vec<u8> = Vec::new();
                tt.push(o.token_type);
                ops.push(Op::Push(tt));
                let mut verb: Vec<u8> = Vec::new();
                verb.push(0x53);
                verb.push(0x45);
                verb.push(0x4e);
                verb.push(0x44);
                proof {
                    assert(verb@ =~= seq![0x53u8, 0x45, 0x4e, 0x44]);
                }
                ops.push(Op::Push(verb));
                let mut tid: Vec<u8> = Vec::new();
                tid.extend_from_slice(o.token_id.as_slice());
                ops.push(Op::Push(tid));
                let ghost head = ops_view(ops@);
                let mut i: usize = 0;
                proof {
                    assert(slp_quantity_ops(o.output_quantities@.take(0)) =~= Seq::<
                        OpV,
                    >::empty());
                    assert(ops_view(ops@) =~~= head + slp_quantity_ops(
                        o.output_quantities@.take(0),
                    ));
                }
                while i < o.output_quantities.len()
                    invariant
                        i <= o.output_quantities@.len(),
                        ops_view(ops@) == head + slp_quantity_ops(
                            o.output_quantities@.take(i as int),
                        ),
                    decreases o.output_quantities@.len() - i,
                {
                    let mut data: Vec<u8> = Vec::new();
                    write_u64_be(&mut data, o.output_quantities[i]);
                    let ghost before = ops_view(ops@);
                    let ghost pushed = data@;
                    ops.push(Op::Push(data));
                    i += 1;
                    proof {
                        assert(pushed =~= u64_be_bytes(o.output_quantities@[i - 1]));
                        assert(ops_view(ops@) =~~= before.push(
                            OpV::Push(u64_be_bytes(o.output_quantities@[i - 1])),
                        ));
                        lemma_slp_quantity_ops_push(
                            o.output_quantities@.take(i - 1),
                            o.output_quantities@[i - 1],
                        );
                        assert(o.output_quantities@.take(i as int)
                            =~= o.output_quantities@.take(i - 1).push(
                            o.output_quantities@[i - 1],
                        ));
                        assert((head + slp_quantity_ops(o.output_quantities@.take(i - 1))).push(
                            OpV::Push(u64_be_bytes(o.output_quantities@[i - 1])),
                        ) =~~= head + slp_quantity_ops(o.output_quantities@.take(i as int)));
                    }
                }
                proof {
                    assert(o.output_quantities@.take(o.output_quantities@.len() as int)
                        =~= o.output_quantities@);
                }
                let r = Script::new_non_minimal_push(ops);
                proof {
                    assert(r.ops_v() =~~= slp_ops(o.token_type, o.token_id@, o.output_quantities@));
                    lemma_slp_quantity_ops_wf(o.output_quantities@);
                    assert(ops_wf(r.ops_v()));
                }
                r
            },
            OutputDesc::EnforceOutputs(o) => {
                let outputs_pre = serialize_outputs(&o.enforced_outputs, 0);
                proof {
                    assert(o.enforced_outputs@.skip(0) =~= o.enforced_outputs@);
                }
                let mut ops: Vec<Op> = Vec::new();
                ops.push(Op::Code(OpCodeType::OpIf));
                ops.push(Op::Push(outputs_pre));
                ops.push(Op::Code(OpCodeType::OpSwap));
                ops.push(Op::Code(OpCodeType::OpCat));
                ops.push(Op::Code(OpCodeType::OpHash256));
                ops.push(Op::Code(OpCodeType::OpCat));
                ops.push(Op::Code(OpCodeType::OpSwap));
                ops.push(Op::Code(OpCodeType::OpCat));
                ops.push(Op::Code(OpCodeType::OpSha256));
                ops.push(Op::Code(OpCodeType::Op3Dup));
                ops.push(Op::Code(OpCodeType::OpDrop));
                let mut t: Vec<u8> = Vec::new();
                t.push(0x41);
                ops.push(Op::Push(t));
                ops.push(Op::Code(OpCodeType::OpCat));
                ops.push(Op::Code(OpCodeType::OpSwap));
                ops.push(Op::Code(OpCodeType::OpCheckSigVerify));
                ops.push(Op::Code(OpCodeType::OpRot));
                ops.push(Op::Code(OpCodeType::OpCheckDataSig));
                ops.push(Op::Code(OpCodeType::OpElse));
                ops.push(Op::Code(OpCodeType::OpDup));
                ops.push(Op::Code(OpCodeType::OpHash160));
                let mut h: Vec<u8> = Vec::new();
                h.extend_from_slice(o.cancel_address.bytes().as_slice());
                ops.push(Op::Push(h));
                ops.push(Op::Code(OpCodeType::OpEqualVerify));
                ops.push(Op::Code(OpCodeType::OpCheckSig));
                ops.push(Op::Code(OpCodeType::OpEndIf));
                let r = Script::new(ops);
                proof {
                    assert(r.ops_v() =~~= enforce_ops(
                        tx_outputs_bytes(o.enforced_outputs@),
                        o.cancel_address.bytes@,
                    ));
                    assert(ops_wf(r.ops_v()));
                }
                r
            },
        }
    }

    /// Builds the script-code the preimage carries when this output is
    /// spent.
    pub fn script_code(&self) -> (r: Script)
        requires
            desc_wf(*self),
            desc_spendable(*self),
        ensures
            r.ops_v() == desc_script_code_ops(*self),
            r.is_minimal_push == desc_script_code_minimal(*self),
            r.wf(),
    {
        match self {
            OutputDesc::P2sh(inner) => inner.script(),
            _ => self.script(),
        }
    }

    /// The transaction output this descriptor locks.
    pub fn to_tx_output(&self) -> (r: TxOutput)
        requires
            desc_wf(*self),
        ensures
            r.value == desc_value(*self),
            r.script.ops_v() == desc_script_ops(*self),
            r.script.is_minimal_push == desc_minimal(*self),
            r.script.wf(),
            tx_output_bytes(r) == desc_output_bytes(*self),
    {
        TxOutput { value: self.value(), script: self.script() }
    }

    /// Builds the unlocking script for a spending input. The byte-length
    /// bounds keep every assembled push within the widest push prefix.
    #[verifier::rlimit(100)]
    #[verifier::spinoff_prover]
    pub fn sig_script(
        &self,
        serialized_sig: Vec<u8>,
        pub_key: &[u8],
        pre_image: &PreImage,
        outputs: &[TxOutput],
    ) -> (r: Script)
        requires
            desc_wf(*self),
            desc_spendable(*self),
            serialized_sig@.len() >= 1,
            serialized_sig@.len() <= 0xffff_ffff,
            pub_key@.len() <= 0xffff_ffff,
            pre_image.script_code.wf(),
            pre_image.script_code.bytes().len() <= 0xffff_fe00,
            enforced_count(*self) <= outputs@.len(),
            forall|i: int| 0 <= i < outputs@.len() ==> (#[trigger] outputs@[i]).script.wf(),
            tx_outputs_bytes(outputs@).len() <= 0xffff_ffff,
        ensures
            r.ops_v() == desc_sig_script_ops(
                *self,
                serialized_sig@,
                pub_key@,
                pre_image_bytes(*pre_image, crate::incomplete_tx::all_flags()),
                pre_image_bytes(*pre_image, begin_flags()),
                pre_image_bytes(*pre_image, end_flags()),
                outputs@,
            ),
            r.is_minimal_push,
            r.wf(),
        decreases *self,
    {
        match self {
            OutputDesc::P2pkh(_) => {
                let mut ops: Vec<Op> = Vec::new();
                ops.push(Op::Push(serialized_sig));
                let mut pk: Vec<u8> = Vec::new();
                pk.extend_from_slice(pub_key);
                ops.push(Op::Push(pk));
                let r = Script::new(ops);
                proof {
                    assert(r.ops_v() =~~= desc_sig_script_ops(
                        *self,
                        serialized_sig@,
                        pub_key@,
                        pre_image_bytes(*pre_image, crate::incomplete_tx::all_flags()),
                        pre_image_bytes(*pre_image, begin_flags()),
                        pre_image_bytes(*pre_image, end_flags()),
                        outputs@,
                    ));
                    assert forall|i: int|
                        0 <= i < r.ops_v().len() implies op_wf(#[trigger] r.ops_v()[i]) by {
                        if i == 0 {
                            assert(r.ops_v()[0] == OpV::Push(serialized_sig@));
                        } else {
                            assert(r.ops_v()[1] == OpV::Push(pub_key@));
                        }
                    }
                }
                r
            },
            OutputDesc::P2pkhDsv(_) => {
                let mut pre_image_serialized: Vec<u8> = Vec::new();
                pre_image.write_to_stream(&mut pre_image_serialized);
                let mut sig = serialized_sig;
                sig.remove(sig.len() - 1);
                let mut ops: Vec<Op> = Vec::new();
                ops.push(Op::Push(pre_image_serialized));
                ops.push(Op::Push(sig));
                let mut pk: Vec<u8> = Vec::new();
                pk.extend_from_slice(pub_key);
                ops.push(Op::Push(pk));
                let r = Script::new(ops);
                proof {
                    assert(r.ops_v() =~~= desc_sig_script_ops(
                        *self,
                        serialized_sig@,
                        pub_key@,
                        pre_image_bytes(*pre_image, crate::incomplete_tx::all_flags()),
                        pre_image_bytes(*pre_image, begin_flags()),
                        pre_image_bytes(*pre_image, end_flags()),
                        outputs@,
                    ));
                    crate::incomplete_tx::lemma_pre_image_bytes_len(
                        *pre_image,
                        crate::incomplete_tx::all_flags(),
                    );
                    assert forall|i: int|
                        0 <= i < r.ops_v().len() implies op_wf(#[trigger] r.ops_v()[i]) by {
                        if i == 0 {
                            assert(r.ops_v()[0] == OpV::Push(
                                pre_image_bytes(*pre_image, crate::incomplete_tx::all_flags()),
                            ));
                        } else if i == 1 {
                            assert(r.ops_v()[1] == OpV::Push(
                                serialized_sig@.take(serialized_sig@.len() - 1),
                            ));
                        } else {
                            assert(r.ops_v()[2] == OpV::Push(pub_key@));
                        }
                    }
                }
                r
            },
            OutputDesc::P2sh(inner) => {
                let mut script = inner.sig_script(serialized_sig, pub_key, pre_image, outputs);
                let ghost before = script.ops_v();
                let inner_bytes = inner.script().to_vec();
                let ghost pushed = inner_bytes@;
                script.add_op(Op::Push(inner_bytes));
                proof {
                    assert forall|i: int|
                        0 <= i < script.ops_v().len() implies op_wf(
                        #[trigger] script.ops_v()[i],
                    ) by {
                        if i < before.len() {
                            assert(script.ops_v()[i] == before[i]);
                            assert(op_wf(before[i]));
                        } else {
                            assert(script.ops_v()[i] == OpV::Push(pushed));
                        }
                    }
                }
                script
            },
            OutputDesc::OpReturn(_) => {
                proof {
                    assert(false);
                }
                Script::empty()
            },
            OutputDesc::SlpSend(_) => {
                proof {
                    assert(false);
                }
                Script::empty()
            },
            OutputDesc::EnforceOutputs(o) => {
                let cancel = match o.is_cancel {
                    Some(c) => c,
                    None => {
                        proof {
                            assert(false);
                        }
                        false
                    },
                };
                if cancel {
                    let mut ops: Vec<Op> = Vec::new();
                    ops.push(Op::Push(serialized_sig));
                    let mut pk: Vec<u8> = Vec::new();
                    pk.extend_from_slice(pub_key);
                    ops.push(Op::Push(pk));
                    let mut zero: Vec<u8> = Vec::new();
                    zero.push(0x00);
                    ops.push(Op::Push(zero));
                    let r = Script::new(ops);
                    proof {
                        assert(r.ops_v() =~~= desc_sig_script_ops(
                            *self,
                            serialized_sig@,
                            pub_key@,
                            pre_image_bytes(*pre_image, crate::incomplete_tx::all_flags()),
                            pre_image_bytes(*pre_image, begin_flags()),
                            pre_image_bytes(*pre_image, end_flags()),
                            outputs@,
                        ));
                        assert forall|i: int|
                            0 <= i < r.ops_v().len() implies op_wf(#[trigger] r.ops_v()[i]) by {
                            if i == 0 {
                                assert(r.ops_v()[0] == OpV::Push(serialized_sig@));
                            } else if i == 1 {
                                assert(r.ops_v()[1] == OpV::Push(pub_key@));
                            } else {
                                assert(r.ops_v()[2] == OpV::Push(seq![0x00u8]));
                            }
                        }
                    }
                    r
                } else {
                    let mut sig = serialized_sig;
                    sig.remove(sig.len() - 1);
                    let mut pre_image_begin: Vec<u8> = Vec::new();
                    pre_image.write_to_stream_flags(&mut pre_image_begin, begin_write_flags());
                    let mut pre_image_end: Vec<u8> = Vec::new();
                    pre_image.write_to_stream_flags(&mut pre_image_end, end_write_flags());
                    let outputs_end = serialize_outputs_slice(outputs, o.enforced_outputs.len());
                    let mut pk: Vec<u8> = Vec::new();
                    pk.extend_from_slice(pub_key);
                    let mut ops: Vec<Op> = Vec::new();
                    ops.push(Op::Push(pk));
                    ops.push(Op::Push(sig));
                    ops.push(Op::Push(pre_image_end));
                    ops.push(Op::Push(pre_image_begin));
                    ops.push(Op::Push(outputs_end));
                    let mut one: Vec<u8> = Vec::new();
                    one.push(0x01);
                    ops.push(Op::Push(one));
                    let r = Script::new(ops);
                    proof {
                        assert(r.ops_v() =~~= desc_sig_script_ops(
                            *self,
                            serialized_sig@,
                            pub_key@,
                            pre_image_bytes(*pre_image, crate::incomplete_tx::all_flags()),
                            pre_image_bytes(*pre_image, begin_flags()),
                            pre_image_bytes(*pre_image, end_flags()),
                            outputs@,
                        ));
                        crate::incomplete_tx::lemma_pre_image_bytes_len(
                            *pre_image,
                            begin_flags(),
                        );
                        crate::incomplete_tx::lemma_pre_image_bytes_len(*pre_image, end_flags());
                        lemma_tx_outputs_bytes_split(
                            outputs@,
                            o.enforced_outputs@.len() as int,
                        );
                        assert forall|i: int|
                            0 <= i < r.ops_v().len() implies op_wf(#[trigger] r.ops_v()[i]) by {
                            if i == 0 {
                                assert(r.ops_v()[0] == OpV::Push(pub_key@));
                            } else if i == 1 {
                                assert(r.ops_v()[1] == OpV::Push(
                                    serialized_sig@.take(serialized_sig@.len() - 1),
                                ));
                            } else if i == 2 {
                                assert(r.ops_v()[2] == OpV::Push(
                                    pre_image_bytes(*pre_image, end_flags()),
                                ));
                            } else if i == 3 {
                                assert(r.ops_v()[3] == OpV::Push(
                                    pre_image_bytes(*pre_image, begin_flags()),
                                ));
                            } else if i == 4 {
                                assert(r.ops_v()[4] == OpV::Push(
                                    tx_outputs_bytes(
                                        outputs@.skip(o.enforced_outputs@.len() as int),
                                    ),
                                ));
                            } else {
                                assert(r.ops_v()[5] == OpV::Push(seq![0x01u8]));
                            }
                        }
                    }
                    r
                }
            },
        }
    }
}

/// How many leading outputs of the spending transaction the descriptor
/// enforces.
pub open spec fn enforced_count(d: OutputDesc) -> nat
    decreases d,
{
    match d {
        OutputDesc::P2sh(inner) => enforced_count(*inner),
        OutputDesc::EnforceOutputs(o) => o.enforced_outputs@.len(),
        _ => 0,
    }
}

/// The serialized value-and-script form of an output descriptor.
pub open spec fn desc_output_bytes(d: OutputDesc) -> Seq<u8> {
    crate::serialize::u64_le_bytes(desc_value(d)) + crate::serialize::var_str_bytes(
        desc_script_bytes(d),
    )
}

proof fn lemma_slp_quantity_ops_push(qs: Seq<u64>, q: u64)
    ensures
        slp_quantity_ops(qs.push(q)) == slp_quantity_ops(qs) + seq![OpV::Push(u64_be_bytes(q))],
    decreases qs.len(),
{
    if qs.len() == 0 {
        assert(qs.push(q).drop_first() =~= qs);
        assert(slp_quantity_ops(qs.push(q)) =~= slp_quantity_ops(qs) + seq![
            OpV::Push(u64_be_bytes(q)),
        ]);
    } else {
        assert(qs.push(q).drop_first() =~= qs.drop_first().push(q));
        lemma_slp_quantity_ops_push(qs.drop_first(), q);
        assert(slp_quantity_ops(qs.push(q)) =~= slp_quantity_ops(qs) + seq![
            OpV::Push(u64_be_bytes(q)),
        ]);
    }
}

proof fn lemma_slp_quantity_ops_wf(qs: Seq<u64>)
    ensures
        forall|i: int|
            0 <= i < slp_quantity_ops(qs).len() ==> op_wf(#[trigger] slp_quantity_ops(qs)[i]),
        slp_quantity_ops(qs).len() == qs.len(),
    decreases qs.len(),
{
    if qs.len() > 0 {
        lemma_slp_quantity_ops_wf(qs.drop_first());
        assert forall|i: int|
            0 <= i < slp_quantity_ops(qs).len() implies op_wf(
            #[trigger] slp_quantity_ops(qs)[i],
        ) by {
            if i > 0 {
                assert(slp_quantity_ops(qs)[i] == slp_quantity_ops(qs.drop_first())[i - 1]);
            }
        }
    }
}

/// Serializes the outputs from `from` on, as they appear in a
/// transaction.
pub fn serialize_outputs_slice(outputs: &[TxOutput], from: usize) -> (r: Vec<u8>)
    requires
        from <= outputs@.len(),
        forall|i: int| 0 <= i < outputs@.len() ==> (#[trigger] outputs@[i]).script.wf(),
    ensures
        r@ == tx_outputs_bytes(outputs@.skip(from as int)),
{
    let mut out: Vec<u8> = Vec::new();
    let n = outputs.len();
    let mut i: usize = from;
    proof {
        assert(outputs@.skip(from as int).take(0) =~= Seq::<TxOutput>::empty());
    }
    while i < n
        invariant
            from <= i <= n,
            n == outputs@.len(),
            forall|j: int| 0 <= j < outputs@.len() ==> (#[trigger] outputs@[j]).script.wf(),
            out@ == tx_outputs_bytes(outputs@.skip(from as int).take(i - from)),
        decreases n - i,
    {
        outputs[i].write_to_stream(&mut out);
        i += 1;
        proof {
            lemma_tx_outputs_bytes_push(
                outputs@.skip(from as int).take(i - from - 1),
                outputs@[i - 1],
            );
            assert(outputs@.skip(from as int).take(i - from) =~= outputs@.skip(
                from as int,
            ).take(i - from - 1).push(outputs@[i - 1]));
        }
    }
    proof {
        assert(outputs@.skip(from as int).take(n - from) =~= outputs@.skip(from as int));
    }
    out
}

/// Serializes the outputs of a vector from `from` on.
pub fn serialize_outputs(outputs: &Vec<TxOutput>, from: usize) -> (r: Vec<u8>)
    requires
        from <= outputs@.len(),
        forall|i: int| 0 <= i < outputs@.len() ==> (#[trigger] outputs@[i]).script.wf(),
    ensures
        r@ == tx_outputs_bytes(outputs@.skip(from as int)),
{
    serialize_outputs_slice(outputs.as_slice(), from)
}

impl TradeOfferOutput {
    /// The nine pushes that announce this offer in an unspendable
    /// output.
    pub fn into_output(self) -> (r: OpReturnOutput)
        ensures
            !r.is_minimal_push,
            r.pushes@.len() == 9,
            crate::outputs::push_views(r.pushes@) == trade_offer_pushes(self),
    {
        let mut pushes: Vec<Vec<u8>> = Vec::new();
        let mut lokad: Vec<u8> = Vec::new();
        lokad.push(0x45);
        lokad.push(0x58);
        lokad.push(0x43);
        lokad.push(0x48);
        proof {
            assert(lokad@ =~= seq![0x45u8, 0x58, 0x43, 0x48]);
        }
        pushes.push(lokad);
        let mut version: Vec<u8> = Vec::new();
        version.push(0x01);
        pushes.push(version);
        let mut verb: Vec<u8> = Vec::new();
        verb.push(0x53);
        verb.push(0x45);
        verb.push(0x4c);
        verb.push(0x4c);
        proof {
            assert(verb@ =~= seq![0x53u8, 0x45, 0x4c, 0x4c]);
        }
        pushes.push(verb);
        let mut tx_id: Vec<u8> = Vec::new();
        tx_id.extend_from_slice(self.tx_id.as_slice());
        pushes.push(tx_id);
        let mut idx: Vec<u8> = Vec::new();
        write_u32_be(&mut idx, self.output_idx);
        pushes.push(idx);
        let mut sell: Vec<u8> = Vec::new();
        write_u64_be(&mut sell, self.sell_amount);
        pushes.push(sell);
        let mut buy: Vec<u8> = Vec::new();
        write_u64_be(&mut buy, self.buy_amount);
        pushes.push(buy);
        let mut recv: Vec<u8> = Vec::new();
        recv.extend_from_slice(self.receiving_address.bytes().as_slice());
        pushes.push(recv);
        let mut cancel: Vec<u8> = Vec::new();
        cancel.extend_from_slice(self.cancel_address.bytes().as_slice());
        pushes.push(cancel);
        let r = OpReturnOutput { pushes, is_minimal_push: false };
        proof {
            assert(push_views(r.pushes@) =~~= trade_offer_pushes(self));
        }
        r
    }
}

/// The byte strings a push list holds.
pub open spec fn push_views(pushes: Seq<Vec<u8>>) -> Seq<Seq<u8>> {
    pushes.map_values(|p: Vec<u8>| p@)
}

/// The announced fields of a trade offer, in announcement order.
pub open spec fn trade_offer_pushes(t: TradeOfferOutput) -> Seq<Seq<u8>> {
    seq![
        seq![0x45u8, 0x58, 0x43, 0x48],
        seq![0x01u8],
        seq![0x53u8, 0x45, 0x4c, 0x4c],
        t.tx_id@,
        u32_be_bytes(t.output_idx),
        u64_be_bytes(t.sell_amount),
        u64_be_bytes(t.buy_amount),
        t.receiving_address.bytes@,
        t.cancel_address.bytes@,
    ]
}

/// The flag set that serializes everything before the outputs hash.
pub fn begin_write_flags() -> (r: PreImageWriteFlags)
    ensures
        r == begin_flags(),
{
    PreImageWriteFlags {
        version: true,
        hash_prevouts: true,
        hash_sequence: true,
        outpoint: true,
        script_code: true,
        value: true,
        sequence: true,
        hash_outputs: false,
        lock_time: false,
        sighash_type: false,
    }
}

/// The flag set that serializes everything after the outputs hash.
pub fn end_write_flags() -> (r: PreImageWriteFlags)
    ensures
        r == end_flags(),
{
    PreImageWriteFlags {
        version: false,
        hash_prevouts: false,
        hash_sequence: false,
        outpoint: false,
        script_code: false,
        value: false,
        sequence: false,
        hash_outputs: false,
        lock_time: true,
        sighash_type: true,
    }
}

} // verus!
