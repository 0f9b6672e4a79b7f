//! The trading flows' decision logic: parsing announced offers, the
//! token-send pattern, the covenant construction, and the fee and change
//! arithmetic of the offer and accept flows.

use vstd::prelude::*;
use crate::address::{Address, AddressType};
use crate::incomplete_tx::{
    IncompleteTx, builder_pre_image_all, builder_pre_image_begin, builder_pre_image_end,
    signing_facts,
};
use crate::hash::{dsha256_of, sha256_of};
use crate::outputs::{
    EnforceOutputsOutput, OutputDesc, P2PKHOutput, SLPSendOutput, TradeOfferOutput,
    covenant_buy_run_ops, desc_wf,
};
use crate::secp::{ecdsa_sig_der_of, ecdsa_verifies, pubkey_of};
use crate::script_interpreter::{ScriptError, run_steps, step_result};
use crate::script::{OpV, Script};
use crate::serialize::{read_u32_be, read_u64_be, u32_of_be, u64_of_be};
use crate::tx::{
    TxOutput, lemma_tx_outputs_bytes_push, lemma_tx_outputs_bytes_split, tx_outputs_bytes,
};

verus! {

/// Rebuilds a trade offer from the six announced fields: the funded
/// transaction id, the big-endian output index and amounts, and the two
/// 20-byte address hashes.
pub fn trade_offer_from_parts(
    tx_id: &[u8],
    output_idx: &[u8],
    sell_amount: &[u8],
    buy_amount: &[u8],
    receiving_hash: &[u8],
    cancel_hash: &[u8],
) -> (r: Option<TradeOfferOutput>)
    ensures
        r is Some <==> tx_id@.len() == 32 && output_idx@.len() == 4 && sell_amount@.len() == 8
            && buy_amount@.len() == 8 && receiving_hash@.len() == 20 && cancel_hash@.len() == 20,
        r is Some ==> {
            let t = r->0;
            &&& t.tx_id@ == tx_id@
            &&& t.output_idx == u32_of_be(output_idx@)
            &&& t.sell_amount == u64_of_be(sell_amount@)
            &&& t.buy_amount == u64_of_be(buy_amount@)
            &&& t.receiving_address.bytes@ == receiving_hash@
            &&& t.receiving_address.addr_type == AddressType::P2PKH
            &&& t.cancel_address.bytes@ == cancel_hash@
            &&& t.cancel_address.addr_type == AddressType::P2PKH
        },
{
    if tx_id.len() != 32 || output_idx.len() != 4 || sell_amount.len() != 8 || buy_amount.len()
        != 8 || receiving_hash.len() != 20 || cancel_hash.len() != 20 {
        return None;
    }
    let mut id = [0u8; 32];
    let mut i: usize = 0;
    while i < 32
        invariant
            tx_id@.len() == 32,
            i <= 32,
            forall|j: int| 0 <= j < i ==> id@[j] == tx_id@[j],
        decreases 32 - i,
    {
        id[i] = tx_id[i];
        i += 1;
    }
    proof {
        assert(id@ =~= tx_id@);
    }
    let mut recv = [0u8; 20];
    let mut k: usize = 0;
    while k < 20
        invariant
            receiving_hash@.len() == 20,
            k <= 20,
            forall|j: int| 0 <= j < k ==> recv@[j] == receiving_hash@[j],
        decreases 20 - k,
    {
        recv[k] = receiving_hash[k];
        k += 1;
    }
    proof {
        assert(recv@ =~= receiving_hash@);
    }
    let mut cancel = [0u8; 20];
    let mut m: usize = 0;
    while m < 20
        invariant
            cancel_hash@.len() == 20,
            m <= 20,
            forall|j: int| 0 <= j < m ==> cancel@[j] == cancel_hash@[j],
        decreases 20 - m,
    {
        cancel[m] = cancel_hash[m];
        m += 1;
    }
    proof {
        assert(cancel@ =~= cancel_hash@);
    }
    Some(
        TradeOfferOutput {
            tx_id: id,
            output_idx: read_u32_be(output_idx),
            sell_amount: read_u64_be(sell_amount),
            buy_amount: read_u64_be(buy_amount),
            receiving_address: Address::from_bytes(AddressType::P2PKH, recv),
            cancel_address: Address::from_bytes(AddressType::P2PKH, cancel),
        },
    )
}

/// Whether a script opens with the token-send pattern: the unspendable
/// marker, the protocol tag, the announced token type, and the send
/// verb, with at least two quantity pushes after the token id.
pub open spec fn slp_send_prefix(ops: Seq<OpV>) -> bool {
    &&& ops.len() >= 7
    &&& ops[0] == OpV::Code(0x6a)
    &&& ops[1] == OpV::Push(seq![0x53u8, 0x4c, 0x50, 0x00])
    &&& ops[2] == OpV::Push(seq![0x01u8])
    &&& ops[3] == OpV::Push(seq![0x53u8, 0x45, 0x4e, 0x44])
}

/// Extracts the token id from a script that announces a token send, as
/// the accept flow does when it scans candidate transactions.
pub fn parse_slp_send_token_id(script: &Script) -> (r: Option<Vec<u8>>)
    ensures
        r is Some <==> slp_send_prefix(script.ops_v()) && script.ops_v()[4] is Push,
        r is Some ==> script.ops_v()[4] == OpV::Push(r->0@),
{
    let ops = script.ops();
    if ops.len() < 7 {
        return None;
    }
    let ok0 = match &ops[0] {
        crate::script::Op::Code(c) => crate::script::opcode_byte(*c) == 0x6a,
        _ => false,
    };
    let ok1 = match &ops[1] {
        crate::script::Op::Push(v) => v.len() == 4 && v[0] == 0x53 && v[1] == 0x4c && v[2] == 0x50
            && v[3] == 0x00,
        _ => false,
    };
    let ok2 = match &ops[2] {
        crate::script::Op::Push(v) => v.len() == 1 && v[0] == 0x01,
        _ => false,
    };
    let ok3 = match &ops[3] {
        crate::script::Op::Push(v) => v.len() == 4 && v[0] == 0x53 && v[1] == 0x45 && v[2] == 0x4e
            && v[3] == 0x44,
        _ => false,
    };
    proof {
        assert(script.ops_v()[0] == crate::script::op_view(script.ops@[0]));
        assert(script.ops_v()[1] == crate::script::op_view(script.ops@[1]));
        assert(script.ops_v()[2] == crate::script::op_view(script.ops@[2]));
        assert(script.ops_v()[3] == crate::script::op_view(script.ops@[3]));
        assert(script.ops_v()[4] == crate::script::op_view(script.ops@[4]));
        if ok1 {
            assert((match script.ops@[1] {
                crate::script::Op::Push(v) => v@,
                crate::script::Op::Code(_) => Seq::empty(),
            }) =~= seq![0x53u8, 0x4c, 0x50, 0x00]);
        }
        if ok2 {
            assert((match script.ops@[2] {
                crate::script::Op::Push(v) => v@,
                crate::script::Op::Code(_) => Seq::empty(),
            }) =~= seq![0x01u8]);
        }
        if ok3 {
            assert((match script.ops@[3] {
                crate::script::Op::Push(v) => v@,
                crate::script::Op::Code(_) => Seq::empty(),
            }) =~= seq![0x53u8, 0x45, 0x4e, 0x44]);
        }
    }
    if !(ok0 && ok1 && ok2 && ok3) {
        return None;
    }
    match &ops[4] {
        crate::script::Op::Push(v) => {
            let mut id: Vec<u8> = Vec::new();
            id.extend_from_slice(v.as_slice());
            proof {
                assert(id@ =~= v@);
            }
            Some(id)
        },
        _ => None,
    }
}

/// The two outputs a covenant enforces: the token send of the sold
/// amount, and the payment of the asked amount to the seller.
pub fn build_enforced_outputs(
    token_id: &[u8; 32],
    sell_amount: u64,
    buy_amount: u64,
    receiving_address: &Address,
) -> (r: (SLPSendOutput, P2PKHOutput))
    ensures
        r.0.token_type == 1,
        r.0.token_id@ == token_id@,
        r.0.output_quantities@ == seq![0u64, sell_amount],
        r.1.value == buy_amount,
        r.1.address == *receiving_address,
{
    let mut quantities: Vec<u64> = Vec::new();
    quantities.push(0);
    quantities.push(sell_amount);
    proof {
        assert(quantities@ =~= seq![0u64, sell_amount]);
    }
    let slp = SLPSendOutput { token_type: 1, token_id: *token_id, output_quantities: quantities };
    let pay = P2PKHOutput { value: buy_amount, address: receiving_address.duplicate() };
    (slp, pay)
}

/// Covenant coupling, the reconstruction half: when the spending
/// transaction's outputs begin with exactly the enforced outputs, the
/// preimage the covenant reassembles from its recorded head, the hash of
/// the rebuilt output list, and the spender's tail is byte for byte the
/// preimage that was signed.
pub proof fn lemma_covenant_reconstruction(b: IncompleteTx, i: int, n: int)
    requires
        0 <= n <= b.outputs@.len(),
        0 <= i < b.inputs@.len(),
    ensures
        builder_pre_image_begin(b, i) + dsha256_of(
            tx_outputs_bytes(b.outputs@.take(n)) + tx_outputs_bytes(b.outputs@.skip(n)),
        ) + builder_pre_image_end(b, 0x41) == builder_pre_image_all(b, i, 0x41),
{
    lemma_tx_outputs_bytes_split(b.outputs@, n);
}

/// Covenant coupling, the run half: fed the five value pushes of the
/// signed buy unlocking script and then the buy branch of the covenant's
/// locking script, the interpreter accepts every step, and the single
/// byte string it leaves is the truthy flag exactly when the builder's
/// deterministic signature also verifies for the preimage the branch
/// reassembles from `outputs_pre` and the spender-supplied `tail`.
#[verifier::rlimit(100)]
#[verifier::spinoff_prover]
pub proof fn lemma_covenant_buy_run(
    b: IncompleteTx,
    i: int,
    outputs_pre: Seq<u8>,
    tail: Seq<u8>,
    cancel_hash: Seq<u8>,
)
    requires
        0 <= i < b.inputs@.len(),
        signing_facts(b, i),
    ensures
        ({
            let key = b.inputs@[i].key@;
            let digest = dsha256_of(builder_pre_image_all(b, i, 0x41));
            run_steps(
                Seq::<Seq<u8>>::empty(),
                builder_pre_image_all(b, i, 0x41),
                covenant_buy_run_ops(
                    ecdsa_sig_der_of(key, digest).push(0x41),
                    pubkey_of(key),
                    builder_pre_image_begin(b, i),
                    builder_pre_image_end(b, 0x41),
                    tail,
                    outputs_pre,
                    cancel_hash,
                ),
            ) == Ok::<Seq<Seq<u8>>, ScriptError>(
                seq![
                    if ecdsa_verifies(
                        dsha256_of(
                            builder_pre_image_begin(b, i) + dsha256_of(outputs_pre + tail)
                                + builder_pre_image_end(b, 0x41),
                        ),
                        ecdsa_sig_der_of(key, digest),
                        pubkey_of(key),
                    ) {
                        seq![1u8]
                    } else {
                        seq![0u8]
                    },
                ],
            )
        }),
{
    let key = b.inputs@[i].key@;
    let pre = builder_pre_image_all(b, i, 0x41);
    let digest = dsha256_of(pre);
    let s = ecdsa_sig_der_of(key, digest);
    let sig_t = s.push(0x41);
    let p = pubkey_of(key);
    let e = builder_pre_image_end(b, 0x41);
    let bg = builder_pre_image_begin(b, i);
    let a41 = seq![0x41u8];
    let ops = covenant_buy_run_ops(sig_t, p, bg, e, tail, outputs_pre, cancel_hash);
    assert(ops.len() == 21);
    assert(sig_t.take(sig_t.len() - 1) =~= s);

    let st0 = Seq::<Seq<u8>>::empty();
    let st1 = seq![p];
    let st2 = seq![p, s];
    let st3 = seq![p, s, e];
    let st4 = seq![p, s, e, bg];
    let st5 = seq![p, s, e, bg, tail];
    let st6 = seq![p, s, e, bg, tail, outputs_pre];
    let st7 = seq![p, s, e, bg, outputs_pre, tail];
    let cat1 = outputs_pre + tail;
    let st8 = seq![p, s, e, bg, cat1];
    let h = dsha256_of(cat1);
    let st9 = seq![p, s, e, bg, h];
    let st10 = seq![p, s, e, bg + h];
    let st11 = seq![p, s, bg + h, e];
    let recon = bg + h + e;
    let st12 = seq![p, s, recon];
    let q = sha256_of(recon);
    let st13 = seq![p, s, q];
    let st14 = seq![p, s, q, p, s, q];
    let st15 = seq![p, s, q, p, s];
    let st16 = seq![p, s, q, p, s, a41];
    let st17 = seq![p, s, q, p, s + a41];
    let st18 = seq![p, s, q, s + a41, p];
    let st19 = seq![p, s, q];
    let st20 = seq![s, q, p];
    let flag = if ecdsa_verifies(dsha256_of(recon), s, p) {
        seq![1u8]
    } else {
        seq![0u8]
    };
    let st21 = seq![flag];

    assert(ops[0] == OpV::Push(p));
    assert(ops[1] == OpV::Push(s));
    assert(ops[2] == OpV::Push(e));
    assert(ops[3] == OpV::Push(bg));
    assert(ops[4] == OpV::Push(tail));
    assert(ops[5] == OpV::Push(outputs_pre));
    assert(ops[6] == OpV::Code(0x7c));
    assert(ops[7] == OpV::Code(0x7e));
    assert(ops[8] == OpV::Code(0xaa));
    assert(ops[9] == OpV::Code(0x7e));
    assert(ops[10] == OpV::Code(0x7c));
    assert(ops[11] == OpV::Code(0x7e));
    assert(ops[12] == OpV::Code(0xa8));
    assert(ops[13] == OpV::Code(0x6f));
    assert(ops[14] == OpV::Code(0x75));
    assert(ops[15] == OpV::Push(a41));
    assert(ops[16] == OpV::Code(0x7e));
    assert(ops[17] == OpV::Code(0x7c));
    assert(ops[18] == OpV::Code(0xad));
    assert(ops[19] == OpV::Code(0x7b));
    assert(ops[20] == OpV::Code(0xba));

    assert(step_result(st0, pre, ops[0]) == Ok::<Seq<Seq<u8>>, ScriptError>(st1)) by {
        assert(st0.push(p) =~~= st1);
    }
    assert(step_result(st1, pre, ops[1]) == Ok::<Seq<Seq<u8>>, ScriptError>(st2)) by {
        assert(st1.push(s) =~~= st2);
    }
    assert(step_result(st2, pre, ops[2]) == Ok::<Seq<Seq<u8>>, ScriptError>(st3)) by {
        assert(st2.push(e) =~~= st3);
    }
    assert(step_result(st3, pre, ops[3]) == Ok::<Seq<Seq<u8>>, ScriptError>(st4)) by {
        assert(st3.push(bg) =~~= st4);
    }
    assert(step_result(st4, pre, ops[4]) == Ok::<Seq<Seq<u8>>, ScriptError>(st5)) by {
        assert(st4.push(tail) =~~= st5);
    }
    assert(step_result(st5, pre, ops[5]) == Ok::<Seq<Seq<u8>>, ScriptError>(st6)) by {
        assert(st5.push(outputs_pre) =~~= st6);
    }
    assert(step_result(st6, pre, ops[6]) == Ok::<Seq<Seq<u8>>, ScriptError>(st7)) by {
        assert(st6.update(st6.len() - 2, st6.last()).update(st6.len() - 1, st6[st6.len() - 2])
            =~~= st7);
    }
    assert(step_result(st7, pre, ops[7]) == Ok::<Seq<Seq<u8>>, ScriptError>(st8)) by {
        assert(st7.take(st7.len() - 2).push(st7[st7.len() - 2] + st7.last()) =~~= st8);
    }
    assert(step_result(st8, pre, ops[8]) == Ok::<Seq<Seq<u8>>, ScriptError>(st9)) by {
        assert(st8.take(st8.len() - 1).push(dsha256_of(st8.last())) =~~= st9);
    }
    assert(step_result(st9, pre, ops[9]) == Ok::<Seq<Seq<u8>>, ScriptError>(st10)) by {
        assert(st9.take(st9.len() - 2).push(st9[st9.len() - 2] + st9.last()) =~~= st10);
    }
    assert(step_result(st10, pre, ops[10]) == Ok::<Seq<Seq<u8>>, ScriptError>(st11)) by {
        assert(st10.update(st10.len() - 2, st10.last()).update(
            st10.len() - 1,
            st10[st10.len() - 2],
        ) =~~= st11);
    }
    assert(step_result(st11, pre, ops[11]) == Ok::<Seq<Seq<u8>>, ScriptError>(st12)) by {
        assert(st11.take(st11.len() - 2).push(st11[st11.len() - 2] + st11.last()) =~~= st12);
    }
    assert(step_result(st12, pre, ops[12]) == Ok::<Seq<Seq<u8>>, ScriptError>(st13)) by {
        assert(st12.take(st12.len() - 1).push(sha256_of(st12.last())) =~~= st13);
    }
    assert(step_result(st13, pre, ops[13]) == Ok::<Seq<Seq<u8>>, ScriptError>(st14)) by {
        assert(st13 + st13.skip(st13.len() - 3) =~~= st14);
    }
    assert(step_result(st14, pre, ops[14]) == Ok::<Seq<Seq<u8>>, ScriptError>(st15)) by {
        assert(st14.take(st14.len() - 1) =~~= st15);
    }
    assert(step_result(st15, pre, ops[15]) == Ok::<Seq<Seq<u8>>, ScriptError>(st16)) by {
        assert(st15.push(a41) =~~= st16);
    }
    assert(step_result(st16, pre, ops[16]) == Ok::<Seq<Seq<u8>>, ScriptError>(st17)) by {
        assert(st16.take(st16.len() - 2).push(st16[st16.len() - 2] + st16.last()) =~~= st17);
    }
    assert(step_result(st17, pre, ops[17]) == Ok::<Seq<Seq<u8>>, ScriptError>(st18)) by {
        assert(st17.update(st17.len() - 2, st17.last()).update(
            st17.len() - 1,
            st17[st17.len() - 2],
        ) =~~= st18);
    }
    assert(step_result(st18, pre, ops[18]) == Ok::<Seq<Seq<u8>>, ScriptError>(st19)) by {
        assert((s + a41).take((s + a41).len() - 1) =~= s);
        assert(ecdsa_verifies(dsha256_of(pre), s, p));
        assert(st18.take(st18.len() - 2) =~~= st19);
    }
    assert(step_result(st19, pre, ops[19]) == Ok::<Seq<Seq<u8>>, ScriptError>(st20)) by {
        assert(st19.remove(st19.len() - 3).push(st19[st19.len() - 3]) =~~= st20);
    }
    assert(step_result(st20, pre, ops[20]) == Ok::<Seq<Seq<u8>>, ScriptError>(st21)) by {
        if ecdsa_verifies(dsha256_of(recon), s, p) {
            assert(st20.take(st20.len() - 3).push(seq![1u8]) =~~= st21);
        } else {
            assert(st20.take(st20.len() - 3).push(seq![0u8]) =~~= st21);
        }
    }

    assert(ops.skip(0) =~= ops);
    assert(ops.skip(21) =~= Seq::<OpV>::empty());
    assert(run_steps(st21, pre, ops.skip(21)) == Ok::<Seq<Seq<u8>>, ScriptError>(st21));
    lemma_covenant_run_step(st20, pre, ops, 20, st21, Ok(st21));
    lemma_covenant_run_step(st19, pre, ops, 19, st20, Ok(st21));
    lemma_covenant_run_step(st18, pre, ops, 18, st19, Ok(st21));
    lemma_covenant_run_step(st17, pre, ops, 17, st18, Ok(st21));
    lemma_covenant_run_step(st16, pre, ops, 16, st17, Ok(st21));
    lemma_covenant_run_step(st15, pre, ops, 15, st16, Ok(st21));
    lemma_covenant_run_step(st14, pre, ops, 14, st15, Ok(st21));
    lemma_covenant_run_step(st13, pre, ops, 13, st14, Ok(st21));
    lemma_covenant_run_step(st12, pre, ops, 12, st13, Ok(st21));
    lemma_covenant_run_step(st11, pre, ops, 11, st12, Ok(st21));
    lemma_covenant_run_step(st10, pre, ops, 10, st11, Ok(st21));
    lemma_covenant_run_step(st9, pre, ops, 9, st10, Ok(st21));
    lemma_covenant_run_step(st8, pre, ops, 8, st9, Ok(st21));
    lemma_covenant_run_step(st7, pre, ops, 7, st8, Ok(st21));
    lemma_covenant_run_step(st6, pre, ops, 6, st7, Ok(st21));
    lemma_covenant_run_step(st5, pre, ops, 5, st6, Ok(st21));
    lemma_covenant_run_step(st4, pre, ops, 4, st5, Ok(st21));
    lemma_covenant_run_step(st3, pre, ops, 3, st4, Ok(st21));
    lemma_covenant_run_step(st2, pre, ops, 2, st3, Ok(st21));
    lemma_covenant_run_step(st1, pre, ops, 1, st2, Ok(st21));
    lemma_covenant_run_step(st0, pre, ops, 0, st1, Ok(st21));
    assert(run_steps(st0, pre, ops) == Ok::<Seq<Seq<u8>>, ScriptError>(st21));
}

/// One link of the run: when the step at `k` turns `st` into `st2` and
/// the rest of the run from `st2` ends in `outcome`, the run from `st`
/// at `k` ends there too.
proof fn lemma_covenant_run_step(
    st: Seq<Seq<u8>>,
    pre: Seq<u8>,
    ops: Seq<OpV>,
    k: int,
    st2: Seq<Seq<u8>>,
    outcome: Result<Seq<Seq<u8>>, ScriptError>,
)
    requires
        0 <= k < ops.len(),
        step_result(st, pre, ops[k]) == Ok::<Seq<Seq<u8>>, ScriptError>(st2),
        run_steps(st2, pre, ops.skip(k + 1)) == outcome,
    ensures
        run_steps(st, pre, ops.skip(k)) == outcome,
{
    assert(ops.skip(k).first() == ops[k]);
    assert(ops.skip(k).drop_first() =~= ops.skip(k + 1));
}

/// Covenant coupling, the accepted spend: when the spending
/// transaction's first `n` outputs serialize to exactly the bytes the
/// covenant records as `outputs_pre` and the spender supplies the
/// remaining outputs' bytes, the buy branch runs to completion and
/// leaves the truthy flag.
pub proof fn lemma_covenant_buy_accepts(b: IncompleteTx, i: int, n: int, cancel_hash: Seq<u8>)
    requires
        0 <= i < b.inputs@.len(),
        0 <= n <= b.outputs@.len(),
        signing_facts(b, i),
    ensures
        ({
            let key = b.inputs@[i].key@;
            let digest = dsha256_of(builder_pre_image_all(b, i, 0x41));
            run_steps(
                Seq::<Seq<u8>>::empty(),
                builder_pre_image_all(b, i, 0x41),
                covenant_buy_run_ops(
                    ecdsa_sig_der_of(key, digest).push(0x41),
                    pubkey_of(key),
                    builder_pre_image_begin(b, i),
                    builder_pre_image_end(b, 0x41),
                    tx_outputs_bytes(b.outputs@.skip(n)),
                    tx_outputs_bytes(b.outputs@.take(n)),
                    cancel_hash,
                ),
            ) == Ok::<Seq<Seq<u8>>, ScriptError>(seq![seq![1u8]])
        }),
{
    lemma_covenant_buy_run(
        b,
        i,
        tx_outputs_bytes(b.outputs@.take(n)),
        tx_outputs_bytes(b.outputs@.skip(n)),
        cancel_hash,
    );
    lemma_covenant_reconstruction(b, i, n);
    assert(builder_pre_image_begin(b, i) + dsha256_of(
        tx_outputs_bytes(b.outputs@.take(n)) + tx_outputs_bytes(b.outputs@.skip(n)),
    ) + builder_pre_image_end(b, 0x41) == builder_pre_image_all(b, i, 0x41));
}

/// The change value of the offer-listing transaction: the balance minus
/// the estimated weight and a fixed margin. `None` when the balance
/// cannot cover them.
pub fn offer_change_value(balance: u64, size_so_far: u64, size_output: u64) -> (r: Option<u64>)
    ensures
        r is Some <==> size_so_far + size_output + 20 <= balance,
        r is Some ==> r->0 as int == balance - (size_so_far + size_output + 20),
{
    if size_so_far > u64::MAX - size_output {
        return None;
    }
    let needed = size_so_far + size_output;
    if needed > u64::MAX - 20 || needed + 20 > balance {
        return None;
    }
    Some(balance - (needed + 20))
}

/// The send and change amounts of a simple payment: when the balance
/// cannot cover the requested amount plus the fee, the whole balance
/// less the fee is sent instead; change under the dust floor is dropped.
pub fn plan_simple_send(balance: u64, send_amount: u64, estimated_size: u64, dust: u64) -> (r:
    Option<(u64, Option<u64>)>)
    ensures
        r is Some <==> estimated_size + 5 <= balance,
        r is Some ==> {
            let fee = estimated_size + 5;
            let (send, change) = r->0;
            if balance < send_amount + fee {
                send == balance - fee && change is None
            } else {
                send == send_amount && (if balance - (send_amount + fee) < dust {
                    change is None
                } else {
                    change == Some((balance - (send_amount + fee)) as u64)
                })
            }
        },
{
    if estimated_size > u64::MAX - 5 {
        return None;
    }
    let fee = estimated_size + 5;
    if fee > balance {
        return None;
    }
    if send_amount > u64::MAX - fee || balance < send_amount + fee {
        return Some((balance - fee, None));
    }
    let change = balance - (send_amount + fee);
    if change < dust {
        Some((send_amount, None))
    } else {
        Some((send_amount, Some(change)))
    }
}

/// The total spend and the change of the accept flow: the three output
/// values plus the serialized size and a fixed margin, against the
/// balance.
pub fn accept_totals(
    estimated_size: u64,
    token_output_value: u64,
    buy_amount: u64,
    dust_output_value: u64,
    balance: u64,
) -> (r: Option<(u64, u64)>)
    ensures
        r is Some <==> token_output_value + buy_amount + dust_output_value + estimated_size + 21
            <= balance,
        r is Some ==> (r->0).0 as int == token_output_value + buy_amount + dust_output_value
            + estimated_size + 21 && (r->0).1 as int == balance - (r->0).0,
{
    if estimated_size > u64::MAX - 21 {
        return None;
    }
    let fee = estimated_size + 21;
    if token_output_value > u64::MAX - buy_amount {
        return None;
    }
    let a = token_output_value + buy_amount;
    if a > u64::MAX - dust_output_value {
        return None;
    }
    let b = a + dust_output_value;
    if b > u64::MAX - fee {
        return None;
    }
    let total = b + fee;
    if total > balance {
        return None;
    }
    Some((total, balance - total))
}

/// The serialized byte string of the two outputs a covenant enforces:
/// the token send of the sold amount, then the payment of the asked
/// amount to the seller's key hash.
pub open spec fn covenant_enforced_bytes(
    token_id: Seq<u8>,
    sell_amount: u64,
    buy_amount: u64,
    receiving_hash: Seq<u8>,
) -> Seq<u8> {
    crate::serialize::u64_le_bytes(0) + crate::serialize::var_str_bytes(
        crate::script::script_bytes(
            crate::outputs::slp_ops(1, token_id, seq![0u64, sell_amount]),
            false,
        ),
    ) + crate::serialize::u64_le_bytes(buy_amount) + crate::serialize::var_str_bytes(
        crate::script::script_bytes(crate::outputs::p2pkh_ops(receiving_hash), true),
    )
}

/// The covenant descriptor of an offer: the enforced token send and
/// payment, and the seller's cancel key hash. Fails exactly when the
/// serialized enforced outputs overrun the widest push prefix.
pub fn build_covenant(
    token_id: &[u8; 32],
    sell_amount: u64,
    buy_amount: u64,
    receiving_address: &Address,
    cancel_address: &Address,
    value: u64,
    is_cancel: Option<bool>,
) -> (r: Option<EnforceOutputsOutput>)
    ensures
        r is Some <==> covenant_enforced_bytes(
            token_id@,
            sell_amount,
            buy_amount,
            receiving_address.bytes@,
        ).len() <= 0xffff_ffff,
        r is Some ==> {
            let c = r->0;
            &&& c.value == value
            &&& c.is_cancel == is_cancel
            &&& c.cancel_address == *cancel_address
            &&& c.enforced_outputs@.len() == 2
            &&& desc_wf(OutputDesc::EnforceOutputs(c))
            &&& c.enforced_outputs@[0].value == 0
            &&& c.enforced_outputs@[0].script.ops_v() == crate::outputs::slp_ops(
                1,
                token_id@,
                seq![0u64, sell_amount],
            )
            &&& c.enforced_outputs@[1].value == buy_amount
            &&& c.enforced_outputs@[1].script.ops_v() == crate::outputs::p2pkh_ops(
                receiving_address.bytes@,
            )
            &&& tx_outputs_bytes(c.enforced_outputs@) == covenant_enforced_bytes(
                token_id@,
                sell_amount,
                buy_amount,
                receiving_address.bytes@,
            )
        },
{
    let (slp, pay) = build_enforced_outputs(token_id, sell_amount, buy_amount, receiving_address);
    let slp_desc = OutputDesc::SlpSend(slp);
    let pay_desc = OutputDesc::P2pkh(pay);
    let mut enforced: Vec<TxOutput> = Vec::new();
    let first = slp_desc.to_tx_output();
    let second = pay_desc.to_tx_output();
    enforced.push(first);
    enforced.push(second);
    let serialized = crate::outputs::serialize_outputs(&enforced, 0);
    proof {
        assert(enforced@.skip(0) =~= enforced@);
        assert(enforced@ =~= Seq::<TxOutput>::empty().push(first).push(second));
        lemma_tx_outputs_bytes_push(Seq::<TxOutput>::empty(), first);
        lemma_tx_outputs_bytes_push(Seq::<TxOutput>::empty().push(first), second);
        assert(tx_outputs_bytes(Seq::<TxOutput>::empty()) == Seq::<u8>::empty());
        assert(serialized@ =~= covenant_enforced_bytes(
            token_id@,
            sell_amount,
            buy_amount,
            receiving_address.bytes@,
        ));
    }
    if serialized.len() > 0xffff_ffff {
        return None;
    }
    Some(
        EnforceOutputsOutput {
            value,
            cancel_address: cancel_address.duplicate(),
            enforced_outputs: enforced,
            is_cancel,
        },
    )
}

} // verus!
