use instpay::amount::parse_coin_amount;
use instpay::assemble::do_create_pay2phone_transaction;
use instpay::chain::SEQUENCE_FINAL;
use instpay::types::{TransactionInput, TransactionOutput, TransactionOutputs};
use instpay::TxError;

fn phone_output(phone: &str, amount: &str) -> TransactionOutput {
    TransactionOutput::Phone { phone: phone.as_bytes().to_vec(), amount: amount.as_bytes().to_vec() }
}

fn one_input(fill: u8) -> TransactionInput {
    TransactionInput { txid: vec![fill; 32], vout: 0, sequence: None }
}

#[test]
fn amount_one_base_unit() {
    assert_eq!(parse_coin_amount(&b"0.00000001".to_vec()), Ok(1));
}

#[test]
fn amount_one_and_a_half_coins() {
    assert_eq!(parse_coin_amount(&b"1.5".to_vec()), Ok(150_000_000));
}

#[test]
fn amount_truncates_extra_digits() {
    assert_eq!(parse_coin_amount(&b"1.23456789123".to_vec()), Ok(123_456_789));
}

#[test]
fn amount_whole_coins() {
    assert_eq!(parse_coin_amount(&b"0".to_vec()), Ok(0));
    assert_eq!(parse_coin_amount(&b"21".to_vec()), Ok(2_100_000_000));
}

#[test]
fn amount_truncates_not_rounds() {
    assert_eq!(parse_coin_amount(&b"0.000000019".to_vec()), Ok(1));
}

#[test]
fn amount_rejects_malformed() {
    assert_eq!(parse_coin_amount(&b"".to_vec()), Err(TxError::InvalidAmount));
    assert_eq!(parse_coin_amount(&b".5".to_vec()), Err(TxError::InvalidAmount));
    assert_eq!(parse_coin_amount(&b"1.".to_vec()), Err(TxError::InvalidAmount));
    assert_eq!(parse_coin_amount(&b"1.2.3".to_vec()), Err(TxError::InvalidAmount));
    assert_eq!(parse_coin_amount(&b"1,5".to_vec()), Err(TxError::InvalidAmount));
}

#[test]
fn amount_rejects_overflow() {
    assert_eq!(
        parse_coin_amount(&b"999999999999999999999".to_vec()),
        Err(TxError::InvalidAmount)
    );
}

#[test]
fn zero_lock_time_gives_final_sequences() {
    let inputs = vec![one_input(1), one_input(2)];
    let outputs = TransactionOutputs { outputs: vec![phone_output("5550100", "1.5")] };
    let t = do_create_pay2phone_transaction(inputs, outputs, None).expect("should assemble");
    assert_eq!(t.version, 1);
    assert_eq!(t.lock_time, 0);
    for inp in &t.inputs {
        assert_eq!(inp.sequence, SEQUENCE_FINAL);
        assert!(inp.script_sig.is_empty());
    }
}

#[test]
fn nonzero_lock_time_lowers_default_sequences() {
    let inputs = vec![one_input(1), one_input(2)];
    let outputs = TransactionOutputs { outputs: vec![phone_output("5550100", "1.5")] };
    let t = do_create_pay2phone_transaction(inputs, outputs, Some(500_000)).expect(
        "should assemble",
    );
    assert_eq!(t.lock_time, 500_000);
    for inp in &t.inputs {
        assert_eq!(inp.sequence, SEQUENCE_FINAL - 1);
    }
}

#[test]
fn explicit_sequence_is_kept() {
    let inputs = vec![TransactionInput { txid: vec![9; 32], vout: 3, sequence: Some(42) }];
    let outputs = TransactionOutputs { outputs: vec![phone_output("5550100", "0.1")] };
    let t = do_create_pay2phone_transaction(inputs, outputs, Some(500_000)).expect(
        "should assemble",
    );
    assert_eq!(t.inputs[0].sequence, 42);
    assert_eq!(t.inputs[0].previous_output.index, 3);
}

#[test]
fn assembler_reverses_identifier_once() {
    let txid: Vec<u8> = (0u8..32).collect();
    let inputs = vec![TransactionInput { txid: txid.clone(), vout: 0, sequence: None }];
    let outputs = TransactionOutputs { outputs: vec![phone_output("5550100", "1.5")] };
    let t = do_create_pay2phone_transaction(inputs, outputs, None).expect("should assemble");
    let reversed: Vec<u8> = txid.iter().rev().cloned().collect();
    assert_eq!(t.inputs[0].previous_output.hash, reversed);
}

#[test]
fn address_output_is_not_implemented() {
    let outputs = TransactionOutputs {
        outputs: vec![TransactionOutput::Address {
            address: b"mipcBbFg9gMiCh81Kj8tqqdgoZub1ZJRfn".to_vec(),
            amount: b"1.0".to_vec(),
        }],
    };
    let r = do_create_pay2phone_transaction(vec![one_input(7)], outputs, None);
    assert_eq!(r, Err(TxError::NotImplemented));
}

#[test]
fn script_data_output_is_not_implemented() {
    let outputs = TransactionOutputs {
        outputs: vec![TransactionOutput::ScriptData { script_data: vec![0x6a, 0x01, 0x00] }],
    };
    let r = do_create_pay2phone_transaction(vec![one_input(7)], outputs, None);
    assert_eq!(r, Err(TxError::NotImplemented));
}

#[test]
fn first_failing_output_decides_the_error() {
    let outputs = TransactionOutputs {
        outputs: vec![
            phone_output("5550100", "not-a-number"),
            TransactionOutput::ScriptData { script_data: vec![0x00] },
        ],
    };
    let r = do_create_pay2phone_transaction(vec![one_input(7)], outputs, None);
    assert_eq!(r, Err(TxError::InvalidAmount));
}

#[test]
fn phone_output_value_and_script() {
    let outputs = TransactionOutputs { outputs: vec![phone_output("5550100", "1.5")] };
    let t = do_create_pay2phone_transaction(vec![one_input(7)], outputs, None).expect(
        "should assemble",
    );
    assert_eq!(t.outputs.len(), 1);
    assert_eq!(t.outputs[0].value, 150_000_000);
    let script = &t.outputs[0].script_pubkey;
    assert_eq!(script.len(), 25);
    assert_eq!(&script[0..3], &[0x76, 0xa9, 0x14]);
    assert_eq!(&script[23..25], &[0x88, 0xac]);
    // The embedded hash is the derived key's hash.
    let phone = b"5550100".to_vec();
    let kp = instpay::phonekey::gen_keypair_from_phone(&phone).expect("derivation");
    let addr = kp.address();
    assert_eq!(&script[3..23], addr.hash.as_slice());
}

#[test]
fn script_builder_emits_the_template() {
    let hash: Vec<u8> = (0u8..20).collect();
    let script = instpay::script::build_p2pkh(&hash);
    let mut expected = vec![0x76, 0xa9, 0x14];
    expected.extend_from_slice(&hash);
    expected.extend_from_slice(&[0x88, 0xac]);
    assert_eq!(script, expected);
}
