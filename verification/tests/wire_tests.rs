use instpay::assemble::do_create_pay2phone_transaction;
use instpay::chain::{OutPoint, Transaction, TransactionInput, TransactionOutput};
use instpay::types::{TransactionInput as InReq, TransactionOutput as OutReq, TransactionOutputs};
use instpay::wire::{decode_transaction, serialize_transaction};

fn sample_transaction() -> Transaction {
    Transaction {
        version: 1,
        inputs: vec![TransactionInput {
            previous_output: OutPoint { hash: vec![0xaa; 32], index: 1 },
            script_sig: Vec::new(),
            sequence: 0xffff_ffff,
        }],
        outputs: vec![TransactionOutput { value: 150_000_000, script_pubkey: vec![0x51] }],
        lock_time: 0,
    }
}

#[test]
fn serializes_to_exact_wire_bytes() {
    let bytes = serialize_transaction(&sample_transaction());
    let mut expected: Vec<u8> = Vec::new();
    expected.extend_from_slice(&[0x01, 0x00, 0x00, 0x00]); // version
    expected.push(0x01); // input count
    expected.extend_from_slice(&[0xaa; 32]); // previous identifier
    expected.extend_from_slice(&[0x01, 0x00, 0x00, 0x00]); // output index
    expected.push(0x00); // empty unlocking script
    expected.extend_from_slice(&[0xff, 0xff, 0xff, 0xff]); // sequence
    expected.push(0x01); // output count
    expected.extend_from_slice(&[0x80, 0xd1, 0xf0, 0x08, 0x00, 0x00, 0x00, 0x00]); // value
    expected.extend_from_slice(&[0x01, 0x51]); // locking script
    expected.extend_from_slice(&[0x00, 0x00, 0x00, 0x00]); // lock_time
    assert_eq!(bytes, expected);
}

#[test]
fn wire_round_trip_preserves_every_field() {
    let t = sample_transaction();
    let bytes = serialize_transaction(&t);
    let back = decode_transaction(&bytes).expect("decoding serialized bytes should succeed");
    assert_eq!(back, t);
}

#[test]
fn assembled_transaction_round_trips() {
    let inputs = vec![
        InReq { txid: (0u8..32).collect(), vout: 2, sequence: None },
        InReq { txid: vec![0x11; 32], vout: 7, sequence: Some(99) },
    ];
    let outputs = TransactionOutputs {
        outputs: vec![
            OutReq::Phone { phone: b"5550100".to_vec(), amount: b"1.5".to_vec() },
            OutReq::Phone { phone: b"5550101".to_vec(), amount: b"0.00000001".to_vec() },
        ],
    };
    let t = do_create_pay2phone_transaction(inputs, outputs, Some(123_456)).expect("assembles");
    let bytes = serialize_transaction(&t);
    let back = decode_transaction(&bytes).expect("decodes");
    assert_eq!(back, t);
}

#[test]
fn decode_rejects_truncated_bytes() {
    let t = sample_transaction();
    let mut bytes = serialize_transaction(&t);
    bytes.pop();
    assert!(decode_transaction(&bytes).is_none());
}

#[test]
fn decode_rejects_trailing_garbage() {
    let t = sample_transaction();
    let mut bytes = serialize_transaction(&t);
    bytes.push(0x00);
    assert!(decode_transaction(&bytes).is_none());
}

#[test]
fn decode_rejects_empty_input() {
    assert!(decode_transaction(&Vec::new()).is_none());
}
