use slpagora::address::{Address, AddressType};
use slpagora::hash::{double_sha256, hash160, single_sha256};
use slpagora::hexcode::{hex_decode, hex_encode};
use slpagora::incomplete_tx::{IncompleteTx, PreImage, PreImageWriteFlags, Utxo};
use slpagora::outputs::{
    EnforceOutputsOutput, OutputDesc, P2PKHOutput, SLPSendOutput, TradeOfferOutput,
};
use slpagora::script::{Op, OpCodeType, Script};
use slpagora::script_interpreter::{ScriptError, ScriptInterpreter};
use slpagora::secp::{derive_pub_key, verify_ecdsa_sig};
use slpagora::trade::{
    accept_totals, build_covenant, offer_change_value, parse_slp_send_token_id,
    plan_simple_send, trade_offer_from_parts,
};
use slpagora::tx::{tx_hash_to_hex, tx_hex_to_hash, TxOutpoint, TxOutput};
use slpagora::wallet::{UtxoEntry, Wallet};
use slpagora::message::Message;
use slpagora::message_error::MessageError;
use slpagora::message_header::MessageHeader;
use slpagora::version_message::{VerackMessage, VersionMessage};

fn secret(seed: u8) -> [u8; 32] {
    let mut s = [seed; 32];
    s[0] = 1;
    s
}

#[test]
fn hash_primitives_match_known_digests() {
    let abc = single_sha256(b"abc");
    assert_eq!(
        hex_encode(&abc),
        "ba7816bf8f01cfea414140de5dae2223b00361a396177a9cb410ff61f20015ad"
    );
    let double = double_sha256(b"abc");
    assert_eq!(double.to_vec(), single_sha256(&single_sha256(b"abc")).to_vec());
    let h160 = hash160(b"");
    assert_eq!(hex_encode(&h160), "b472a266d0bd89c13706a4132ccfb16f7c3b9fcb");
}

#[test]
fn tx_id_hex_conversion_reverses_byte_order() {
    let hex = "0123456789abcdef0123456789abcdef0123456789abcdef0123456789abcdef";
    let hash = tx_hex_to_hash(hex).expect("a 64-digit id decodes");
    assert_eq!(hash[0], 0xef);
    assert_eq!(hash[31], 0x01);
    assert_eq!(tx_hash_to_hex(&hash), hex);
    assert!(tx_hex_to_hash("abcd").is_none());
}

#[test]
fn pre_image_fragments_concatenate_to_the_whole() {
    let pre_image = PreImage {
        version: 1,
        hash_prevouts: [0x11; 32],
        hash_sequence: [0x22; 32],
        outpoint: TxOutpoint { tx_hash: [0x33; 32], output_idx: 7 },
        script_code: Script::new(vec![Op::Code(OpCodeType::OpDup), Op::Push(vec![9, 9])]),
        value: 100_000,
        sequence: 0xffff_ffff,
        hash_outputs: [0x44; 32],
        lock_time: 0,
        sighash_type: 0x41,
    };
    let all = PreImageWriteFlags {
        version: true,
        hash_prevouts: true,
        hash_sequence: true,
        outpoint: true,
        script_code: true,
        value: true,
        sequence: true,
        hash_outputs: true,
        lock_time: true,
        sighash_type: true,
    };
    let begin = PreImageWriteFlags { hash_outputs: false, lock_time: false, sighash_type: false, ..all };
    let end = PreImageWriteFlags {
        version: false,
        hash_prevouts: false,
        hash_sequence: false,
        outpoint: false,
        script_code: false,
        value: false,
        sequence: false,
        hash_outputs: false,
        lock_time: true,
        sighash_type: true,
    };
    let mut whole = Vec::new();
    pre_image.write_to_stream(&mut whole);
    let mut pieces = Vec::new();
    pre_image.write_to_stream_flags(&mut pieces, begin);
    pieces.extend_from_slice(&pre_image.hash_outputs);
    pre_image.write_to_stream_flags(&mut pieces, end);
    assert_eq!(pieces, whole);
    let mut via_all_flags = Vec::new();
    pre_image.write_to_stream_flags(&mut via_all_flags, all);
    assert_eq!(via_all_flags, whole);
}

#[test]
fn a_bad_coin_id_or_an_overflowing_balance_fails_the_wallet_load() {
    let w = Wallet::from_secret(&secret(0x42)).expect("a valid scalar makes a wallet");
    let bad_id = vec![UtxoEntry {
        txid: "xyz".to_string(),
        vout: 0,
        satoshis: 5,
        confirmations: 1,
    }];
    assert!(w.init_transaction(&bad_id).is_none());
    let overflowing = vec![
        UtxoEntry { txid: "11".repeat(32), vout: 0, satoshis: u64::MAX, confirmations: 1 },
        UtxoEntry { txid: "22".repeat(32), vout: 1, satoshis: 1, confirmations: 1 },
    ];
    assert!(w.init_transaction(&overflowing).is_none());
}

#[test]
fn wallet_signs_a_simple_payment() {
    let w = Wallet::from_secret(&secret(0x42)).expect("a valid scalar makes a wallet");
    assert_eq!(w.address().addr_type(), AddressType::P2PKH);
    assert_eq!(w.address().prefix(), "bitcoincash");

    let utxos = vec![UtxoEntry {
        txid: "11".repeat(32),
        vout: 0,
        satoshis: 100_000,
        confirmations: 1,
    }];
    let (mut build, balance) = w.init_transaction(&utxos).expect("the coin list loads");
    assert_eq!(balance, 100_000);
    build.add_output(&OutputDesc::P2pkh(P2PKHOutput {
        value: 99_000,
        address: w.address().duplicate(),
    }));
    let size = build.estimate_size();
    assert_eq!(size, 4 + 148 + 1 + 25 + 4);
    let tx = build.sign();
    assert_eq!(tx.inputs.len(), 1);
    assert_eq!(tx.outputs.len(), 1);
    assert_eq!(tx.outputs[0].value, 99_000);

    // the unlocking script is a signature push then the public key push
    let ops = tx.inputs[0].script.ops();
    assert_eq!(ops.len(), 2);
    let (sig, pubkey) = match (&ops[0], &ops[1]) {
        (Op::Push(sig), Op::Push(pk)) => (sig.clone(), pk.clone()),
        other => panic!("unexpected unlocking script {:?}", other),
    };
    assert_eq!(*sig.last().unwrap(), 0x41);
    assert_eq!(pubkey, derive_pub_key(&secret(0x42)));

    // the embedded signature verifies against the recomputed sighash
    let pre_images = build.pre_images(0x41);
    let mut serialized = Vec::new();
    pre_images[0].write_to_stream(&mut serialized);
    let message = double_sha256(&serialized);
    let der = &sig[..sig.len() - 1];
    assert_eq!(verify_ecdsa_sig(&message, der, &pubkey), Ok(true));

    let mut tx_bytes = Vec::new();
    tx.write_to_stream(&mut tx_bytes);
    assert_eq!(&tx_bytes[..4], &[1, 0, 0, 0]);
    assert_eq!(*tx_bytes.last().unwrap(), 0);
}

fn run_covenant_buy(tamper: bool) -> Vec<u8> {
    let seller = Wallet::from_secret(&secret(0x21)).unwrap();
    let buyer_key = secret(0x07);
    let token_id = [0xabu8; 32];
    let covenant: EnforceOutputsOutput = build_covenant(
        &token_id,
        5000,
        75_000,
        seller.address(),
        seller.address(),
        50_000,
        Some(false),
    )
    .expect("two small outputs stay within the push limit");
    let redeem = OutputDesc::EnforceOutputs(covenant);

    let mut build = IncompleteTx::new_simple();
    build.add_utxo(Utxo {
        outpoint: TxOutpoint { tx_hash: [0x55; 32], output_idx: 1 },
        output: OutputDesc::P2sh(Box::new(redeem)),
        sequence: 0xffff_ffff,
        key: buyer_key,
    });
    // the first two outputs are exactly the enforced pair
    build.add_output(&OutputDesc::SlpSend(SLPSendOutput {
        token_type: 1,
        token_id,
        output_quantities: vec![0, 5000],
    }));
    build.add_output(&OutputDesc::P2pkh(P2PKHOutput {
        value: 75_000,
        address: seller.address().duplicate(),
    }));
    // and a change output follows them
    let buyer = Wallet::from_secret(&buyer_key).unwrap();
    build.add_output(&OutputDesc::P2pkh(P2PKHOutput {
        value: 20_000,
        address: buyer.address().duplicate(),
    }));
    let tx = build.sign();

    // the unlocking script carries the fragments, then the redeem script
    let ops = tx.inputs[0].script.ops().to_vec();
    assert_eq!(ops.len(), 7);
    let redeem_bytes = match &ops[6] {
        Op::Push(v) => v.clone(),
        other => panic!("expected the redeem push, found {:?}", other),
    };
    let redeem_script = Script::from_serialized(&redeem_bytes).unwrap();

    // recompute the true preimage for the interpreter
    let pre_images = build.pre_images(0x41);
    let mut pre_image_serialized = Vec::new();
    pre_images[0].write_to_stream(&mut pre_image_serialized);
    let mut interp = ScriptInterpreter::new(pre_image_serialized);

    // stack the five covenant pushes: pubkey, signature, tail, head, outputs
    for (k, op) in ops[..5].iter().enumerate() {
        let mut op = op.clone();
        if tamper && k == 4 {
            // corrupt the spender-supplied trailing outputs
            if let Op::Push(v) = &mut op {
                let last = v.len() - 1;
                v[last] ^= 1;
            }
        }
        interp.run_op(&op).expect("a push always succeeds");
    }

    // run the buy branch of the covenant, between the branch opcodes
    let inner = &redeem_script.ops()[1..17];
    for op in inner {
        interp.run_op(op).expect("the buy branch runs to completion");
    }
    interp.stack().last().unwrap().clone()
}

#[test]
fn covenant_buy_accepts_the_enforced_outputs() {
    assert_eq!(run_covenant_buy(false), vec![1]);
}

#[test]
fn covenant_buy_rejects_a_changed_output_tail() {
    assert_eq!(run_covenant_buy(true), vec![0]);
}

#[test]
fn covenant_cancel_spends_with_the_cancel_key() {
    let seller = Wallet::from_secret(&secret(0x21)).unwrap();
    let token_id = [0xabu8; 32];
    let covenant = build_covenant(
        &token_id,
        5000,
        75_000,
        seller.address(),
        seller.address(),
        50_000,
        Some(true),
    )
    .unwrap();
    let mut build = IncompleteTx::new_simple();
    build.add_utxo(Utxo {
        outpoint: TxOutpoint { tx_hash: [0x66; 32], output_idx: 0 },
        output: OutputDesc::P2sh(Box::new(OutputDesc::EnforceOutputs(covenant))),
        sequence: 0xffff_ffff,
        key: secret(0x21),
    });
    build.add_output(&OutputDesc::P2pkh(P2PKHOutput {
        value: 49_000,
        address: seller.address().duplicate(),
    }));
    let tx = build.sign();
    let ops = tx.inputs[0].script.ops();
    // signature, public key, the branch selector, then the redeem script
    assert_eq!(ops.len(), 4);
    assert_eq!(ops[2], Op::Push(vec![0x00]));
    let (sig, pk) = match (&ops[0], &ops[1]) {
        (Op::Push(sig), Op::Push(pk)) => (sig.clone(), pk.clone()),
        other => panic!("unexpected cancel script {:?}", other),
    };
    assert_eq!(pk, derive_pub_key(&secret(0x21)));
    // the cancel key's hash matches the hash the covenant checks against
    assert_eq!(&hash160(&pk), seller.address().bytes());
    let pre_images = build.pre_images(0x41);
    let mut serialized = Vec::new();
    pre_images[0].write_to_stream(&mut serialized);
    let message = double_sha256(&serialized);
    assert_eq!(verify_ecdsa_sig(&message, &sig[..sig.len() - 1], &pk), Ok(true));
    // a stranger's key fails the same check
    let stranger = derive_pub_key(&secret(0x0f));
    assert_eq!(verify_ecdsa_sig(&message, &sig[..sig.len() - 1], &stranger), Ok(false));
}

#[test]
fn the_public_key_of_the_unit_secret_matches_the_generator() {
    let mut one = [0u8; 32];
    one[31] = 1;
    let pk = derive_pub_key(&one);
    assert_eq!(
        hex_encode(&pk),
        "0279be667ef9dcbbac55a06295ce870b07029bfcdb2dce28d959f2815b16f81798"
    );
}

#[test]
fn the_interpreter_reports_each_failure_kind() {
    let mut interp = ScriptInterpreter::new(vec![1, 2, 3]);
    assert_eq!(
        interp.run_op(&Op::Code(OpCodeType::OpAdd)),
        Err(ScriptError::NotImplemented)
    );
    // a garbage public key fails the signature check
    interp.run_op(&Op::Push(vec![0x30, 0x01, 0x41])).unwrap();
    interp.run_op(&Op::Push(vec![0x02, 0x02])).unwrap();
    assert_eq!(
        interp.run_op(&Op::Code(OpCodeType::OpCheckSigVerify)),
        Err(ScriptError::InvalidPubKey)
    );
    // a real key with a malformed signature fails the format check
    let pk = derive_pub_key(&secret(0x42));
    let mut interp = ScriptInterpreter::new(vec![1, 2, 3]);
    interp.run_op(&Op::Push(vec![0x00, 0x41])).unwrap();
    interp.run_op(&Op::Push(pk.clone())).unwrap();
    assert_eq!(
        interp.run_op(&Op::Code(OpCodeType::OpCheckSigVerify)),
        Err(ScriptError::InvalidSignatureFormat)
    );
    // a well-formed signature over the wrong message is invalid
    let other = double_sha256(b"unrelated");
    let sig = slpagora::secp::sign_der(&secret(0x42), &other);
    let mut with_type = sig.clone();
    with_type.push(0x41);
    let mut interp = ScriptInterpreter::new(vec![1, 2, 3]);
    interp.run_op(&Op::Push(with_type)).unwrap();
    interp.run_op(&Op::Push(pk)).unwrap();
    assert_eq!(
        interp.run_op(&Op::Code(OpCodeType::OpCheckSigVerify)),
        Err(ScriptError::InvalidSignature)
    );
}

#[test]
fn an_invalid_scalar_is_rejected_as_a_wallet_secret() {
    assert!(Wallet::from_secret(&[0u8; 32]).is_err());
    assert!(Wallet::from_secret(&[0xffu8; 32]).is_err());
    assert!(Wallet::from_secret(&[1u8; 16]).is_err());
}

#[test]
fn trade_offer_announcement_round_trips() {
    let seller = Wallet::from_secret(&secret(0x33)).unwrap();
    let offer = TradeOfferOutput {
        tx_id: [0x11; 32],
        output_idx: 1,
        sell_amount: 1_000_000,
        buy_amount: 50_000,
        receiving_address: Address::from_bytes(AddressType::P2PKH, [0x22; 20]),
        cancel_address: Address::from_bytes(AddressType::P2PKH, [0x33; 20]),
    };
    let _ = seller;
    let announced = offer.into_output();
    assert!(!announced.is_minimal_push);
    let p = &announced.pushes;
    assert_eq!(p.len(), 9);
    assert_eq!(p[0], b"EXCH".to_vec());
    assert_eq!(p[1], vec![1]);
    assert_eq!(p[2], b"SELL".to_vec());
    let parsed = trade_offer_from_parts(&p[3], &p[4], &p[5], &p[6], &p[7], &p[8])
        .expect("announced fields parse back");
    assert_eq!(parsed.tx_id, [0x11; 32]);
    assert_eq!(parsed.output_idx, 1);
    assert_eq!(parsed.sell_amount, 1_000_000);
    assert_eq!(parsed.buy_amount, 50_000);
    assert_eq!(parsed.receiving_address.bytes(), &[0x22; 20]);
    assert_eq!(parsed.cancel_address.bytes(), &[0x33; 20]);
    assert!(trade_offer_from_parts(&p[3][..31], &p[4], &p[5], &p[6], &p[7], &p[8]).is_none());
}

#[test]
fn token_send_scripts_are_recognized() {
    let send = SLPSendOutput {
        token_type: 1,
        token_id: [0x77; 32],
        output_quantities: vec![0, 5000],
    };
    let script = OutputDesc::SlpSend(send).script();
    let token_id = parse_slp_send_token_id(&script).expect("a token send is recognized");
    assert_eq!(token_id, vec![0x77; 32]);
    let not_send = OutputDesc::P2pkh(P2PKHOutput {
        value: 1,
        address: Address::from_bytes(AddressType::P2PKH, [0; 20]),
    })
    .script();
    assert!(parse_slp_send_token_id(&not_send).is_none());
}

#[test]
fn fee_planners_follow_the_flow_arithmetic() {
    assert_eq!(plan_simple_send(100_000, 99_000, 182, 546), Some((99_000, Some(813))));
    assert_eq!(plan_simple_send(100_000, 99_900, 182, 546), Some((99_813, None)));
    assert_eq!(plan_simple_send(100_000, 99_300, 182, 546), Some((99_300, None)));
    assert_eq!(plan_simple_send(100, 50, 182, 546), None);
    assert_eq!(offer_change_value(10_000, 200, 25), Some(10_000 - 245));
    assert_eq!(offer_change_value(240, 200, 25), None);
    assert_eq!(accept_totals(400, 0, 50_000, 546, 100_000), Some((50_967, 49_033)));
    assert_eq!(accept_totals(400, 0, 50_000, 546, 50_000), None);
}

#[test]
fn message_framing_round_trips_and_checks() {
    let msg = Message::from_payload(b"version", vec![1, 2, 3]);
    assert_eq!(msg.header.payload_size, 3);
    assert_eq!(&msg.header.command[..7], b"version");
    assert_eq!(msg.header.command[7..], [0u8; 5]);
    let mut wire = Vec::new();
    msg.write_to_stream(&mut wire);
    let (parsed, end) = Message::from_stream(&wire, 0).expect("a framed message parses");
    assert_eq!(end, wire.len());
    assert_eq!(parsed.payload, vec![1, 2, 3]);
    assert_eq!(parsed.header.checksum, msg.header.checksum);
    assert_eq!(parsed.header.command_name(), b"version".to_vec());

    let mut wrong_magic = wire.clone();
    wrong_magic[0] = 0x00;
    assert_eq!(Message::from_stream(&wrong_magic, 0).err(), Some(MessageError::WrongMagic));

    let mut bad_payload = wire.clone();
    let last = bad_payload.len() - 1;
    bad_payload[last] ^= 0xff;
    assert_eq!(Message::from_stream(&bad_payload, 0).err(), Some(MessageError::InvalidChecksum));

    assert_eq!(Message::from_stream(&wire[..20], 0).err(), Some(MessageError::UnexpectedEnd));
    let _ = MessageHeader::new([0u8; 12], 0, [0u8; 4]);
}

#[test]
fn version_payload_round_trips_through_the_parser() {
    let v = VersionMessage {
        version: 70015,
        services: 5,
        timestamp: -12345,
        recv_services: 1,
        recv_addr: [9; 16],
        recv_port: 8333,
        send_services: 2,
        send_addr: [7; 16],
        send_port: 8334,
        nonce: 0xdead_beef,
        user_agent: b"/agent/".to_vec(),
        start_height: -1,
        relay: true,
    };
    let payload = v.message().payload;
    let parsed = VersionMessage::from_payload(&payload).expect("a serialized version parses");
    assert_eq!(parsed.version, 70015);
    assert_eq!(parsed.services, 5);
    assert_eq!(parsed.timestamp, -12345);
    assert_eq!(parsed.recv_services, 1);
    assert_eq!(parsed.recv_addr, [9; 16]);
    assert_eq!(parsed.recv_port, 8333);
    assert_eq!(parsed.send_services, 2);
    assert_eq!(parsed.send_addr, [7; 16]);
    assert_eq!(parsed.send_port, 8334);
    assert_eq!(parsed.nonce, 0xdead_beef);
    assert_eq!(parsed.user_agent, b"/agent/".to_vec());
    assert_eq!(parsed.start_height, -1);
    assert!(parsed.relay);
    assert!(VersionMessage::from_payload(&payload[..40]).is_none());
}

#[test]
fn version_and_verack_messages_carry_their_commands() {
    let v = VersionMessage {
        version: 70015,
        services: 0,
        timestamp: 1_234_567,
        recv_services: 0,
        recv_addr: [0; 16],
        recv_port: 8333,
        send_services: 0,
        send_addr: [0; 16],
        send_port: 8333,
        nonce: 99,
        user_agent: b"/test/".to_vec(),
        start_height: 0,
        relay: true,
    };
    let m = v.message();
    assert_eq!(&m.header.command[..7], b"version");
    assert_eq!(m.payload.len(), 4 + 8 + 8 + 8 + 16 + 2 + 8 + 16 + 2 + 8 + 1 + 6 + 4 + 1);
    let ack = VerackMessage.message();
    assert_eq!(&ack.header.command[..6], b"verack");
    assert_eq!(ack.header.payload_size, 0);
}
