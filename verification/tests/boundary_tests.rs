use instpay::adapter::{
    create_pay2phone_transaction, parse_txid_hex, trim_trailing_newlines,
};
use instpay::ids::reversed;
use instpay::types::{TransactionInput, TransactionOutput, TransactionOutputs};
use instpay::wire::decode_transaction;
use instpay::TxError;

#[test]
fn reversal_is_involutive() {
    let data: Vec<u8> = (0u8..32).collect();
    assert_eq!(reversed(&reversed(&data)), data);
}

#[test]
fn reversal_reverses() {
    assert_eq!(reversed(&vec![1, 2, 3]), vec![3, 2, 1]);
    assert_eq!(reversed(&Vec::new()), Vec::<u8>::new());
}

#[test]
fn boundary_serializes_caller_identifier_order() {
    // The boundary reverses each identifier once and the assembler once
    // more, so the wire bytes carry the identifier as the caller gave it.
    let txid: Vec<u8> = (0u8..32).collect();
    let inputs = vec![TransactionInput { txid: txid.clone(), vout: 0, sequence: None }];
    let outputs = TransactionOutputs {
        outputs: vec![TransactionOutput::Phone {
            phone: b"5550100".to_vec(),
            amount: b"1.5".to_vec(),
        }],
    };
    let bytes = create_pay2phone_transaction(inputs, outputs, None).expect("should build");
    let t = decode_transaction(&bytes).expect("wire bytes should decode");
    assert_eq!(t.inputs[0].previous_output.hash, txid);
    assert_eq!(t.version, 1);
    assert_eq!(t.lock_time, 0);
    assert_eq!(t.inputs[0].sequence, 0xffff_ffff);
}

#[test]
fn boundary_with_lock_time_sets_reduced_sequences() {
    let inputs = vec![
        TransactionInput { txid: vec![0xab; 32], vout: 0, sequence: None },
        TransactionInput { txid: vec![0xcd; 32], vout: 1, sequence: None },
    ];
    let outputs = TransactionOutputs {
        outputs: vec![TransactionOutput::Phone {
            phone: b"5550100".to_vec(),
            amount: b"0.25".to_vec(),
        }],
    };
    let bytes = create_pay2phone_transaction(inputs, outputs, Some(500_000)).expect("builds");
    let t = decode_transaction(&bytes).expect("decodes");
    assert_eq!(t.lock_time, 500_000);
    for inp in &t.inputs {
        assert_eq!(inp.sequence, 0xffff_fffe);
    }
}

#[test]
fn boundary_maps_unsupported_output_to_error() {
    let inputs = vec![TransactionInput { txid: vec![0; 32], vout: 0, sequence: None }];
    let outputs = TransactionOutputs {
        outputs: vec![TransactionOutput::ScriptData { script_data: vec![0x00] }],
    };
    let r = create_pay2phone_transaction(inputs, outputs, None);
    assert_eq!(r, Err(TxError::NotImplemented));
}

#[test]
fn txid_hex_parses_sixty_four_digits() {
    let hex = b"0123456789abcdef0123456789ABCDEF0123456789abcdef0123456789abcdef".to_vec();
    let parsed = parse_txid_hex(&hex).expect("valid identifier");
    assert_eq!(parsed.len(), 32);
    assert_eq!(parsed[0], 0x01);
    assert_eq!(parsed[7], 0xef);
    assert_eq!(parsed[15], 0xef);
}

#[test]
fn txid_hex_rejects_bad_input() {
    assert!(parse_txid_hex(&b"0123".to_vec()).is_none());
    let mut bad = vec![b'a'; 64];
    bad[10] = b'g';
    assert!(parse_txid_hex(&bad).is_none());
}

#[test]
fn trailing_newlines_are_trimmed() {
    assert_eq!(trim_trailing_newlines(&b"12.5\n".to_vec()), b"12.5".to_vec());
    assert_eq!(trim_trailing_newlines(&b"abc\n\n\n".to_vec()), b"abc".to_vec());
    assert_eq!(trim_trailing_newlines(&b"abc".to_vec()), b"abc".to_vec());
    assert_eq!(trim_trailing_newlines(&b"\n".to_vec()), Vec::<u8>::new());
    assert_eq!(trim_trailing_newlines(&b"a\nb".to_vec()), b"a\nb".to_vec());
}
