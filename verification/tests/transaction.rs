use legacy_tx::decode::{read_input, read_inputs, read_output, read_outputs};
use legacy_tx::encode::{write_input, write_output};
use legacy_tx::{
    BitcoinError, BitcoinSerialize, Cursor, LegacyTransaction, LegacyTransactionBuilder, OutPoint,
    TxInput, TxOutput,
};

fn sample_txid() -> [u8; 32] {
    let mut txid = [0u8; 32];
    for (i, byte) in txid.iter_mut().enumerate() {
        *byte = i as u8 + 1;
    }
    txid
}

fn sample_transaction() -> LegacyTransaction {
    LegacyTransaction::builder()
        .version(2)
        .add_input(TxInput {
            previous_output: OutPoint { txid: sample_txid(), vout: 3 },
            script_sig: vec![0x51, 0x52, 0x53],
            sequence: 0xFFFF_FFFE,
        })
        .add_input(TxInput {
            previous_output: OutPoint { txid: [0xab; 32], vout: 0 },
            script_sig: vec![],
            sequence: 7,
        })
        .add_output(TxOutput { value: 5_000_000_000, script_pubkey: vec![0x76, 0xa9] })
        .add_output(TxOutput { value: 1, script_pubkey: vec![0x6a; 300] })
        .add_output(TxOutput { value: u64::MAX, script_pubkey: vec![] })
        .lock_time(500_000)
        .build()
}

fn assert_same(left: &LegacyTransaction, right: &LegacyTransaction) {
    assert_eq!(left.version, right.version);
    assert_eq!(left.lock_time, right.lock_time);
    assert_eq!(left.inputs.len(), right.inputs.len());
    for (a, b) in left.inputs.iter().zip(right.inputs.iter()) {
        assert_eq!(a.previous_output.txid, b.previous_output.txid);
        assert_eq!(a.previous_output.vout, b.previous_output.vout);
        assert_eq!(a.script_sig, b.script_sig);
        assert_eq!(a.sequence, b.sequence);
    }
    assert_eq!(left.outputs.len(), right.outputs.len());
    for (a, b) in left.outputs.iter().zip(right.outputs.iter()) {
        assert_eq!(a.value, b.value);
        assert_eq!(a.script_pubkey, b.script_pubkey);
    }
}

fn handcrafted() -> Vec<u8> {
    let mut bytes = Vec::new();
    bytes.extend_from_slice(&[1, 0, 0, 0]);
    bytes.push(1);
    bytes.extend_from_slice(&[0u8; 32]);
    bytes.extend_from_slice(&[0xff, 0xff, 0xff, 0xff]);
    bytes.push(0);
    bytes.extend_from_slice(&[0xff, 0xff, 0xff, 0xff]);
    bytes.push(1);
    bytes.extend_from_slice(&5_000_000_000u64.to_le_bytes());
    bytes.push(0);
    bytes.extend_from_slice(&[0, 0, 0, 0]);
    bytes
}

#[test]
fn builder_defaults() {
    let transaction = LegacyTransactionBuilder::new().build();
    assert_eq!(transaction.version, 1);
    assert!(transaction.inputs.is_empty());
    assert!(transaction.outputs.is_empty());
    assert_eq!(transaction.lock_time, 0);
    let builder = LegacyTransactionBuilder::default();
    assert_eq!(builder.version, 1);
    assert!(builder.inputs.is_empty());
    assert!(builder.outputs.is_empty());
    assert_eq!(builder.lock_time, 0);
    let other = LegacyTransaction::builder();
    assert_eq!(other.version, 1);
    assert_eq!(other.lock_time, 0);
}

#[test]
fn builder_setters_are_order_independent() {
    let input = TxInput {
        previous_output: OutPoint { txid: [9; 32], vout: 1 },
        script_sig: vec![1],
        sequence: 2,
    };
    let output = TxOutput { value: 10, script_pubkey: vec![2] };
    let first = LegacyTransaction::builder()
        .version(7)
        .lock_time(9)
        .add_input(input.clone())
        .add_output(output.clone())
        .build();
    let second = LegacyTransaction::builder()
        .add_output(output)
        .add_input(input)
        .lock_time(9)
        .version(7)
        .build();
    assert_same(&first, &second);
    assert_eq!(first.version, 7);
    assert_eq!(first.lock_time, 9);
}

#[test]
fn builder_keeps_the_order_of_inputs_and_outputs() {
    let transaction = sample_transaction();
    assert_eq!(transaction.inputs.len(), 2);
    assert_eq!(transaction.inputs[0].previous_output.vout, 3);
    assert_eq!(transaction.inputs[1].previous_output.vout, 0);
    assert_eq!(transaction.outputs.len(), 3);
    assert_eq!(transaction.outputs[0].value, 5_000_000_000);
    assert_eq!(transaction.outputs[1].value, 1);
    assert_eq!(transaction.outputs[2].value, u64::MAX);
}

#[test]
fn empty_transaction_is_ten_bytes() {
    let bytes = LegacyTransaction::builder().build().serialize();
    assert_eq!(bytes, vec![1, 0, 0, 0, 0, 0, 0, 0, 0, 0]);
}

#[test]
fn round_trip_of_empty_transaction() {
    let transaction = LegacyTransaction::builder().build();
    let bytes = transaction.serialize();
    let decoded = LegacyTransaction::try_from(&bytes[..]).unwrap();
    assert_same(&decoded, &transaction);
}

#[test]
fn round_trip_of_sample_transaction() {
    let transaction = sample_transaction();
    let bytes = transaction.serialize();
    let decoded = LegacyTransaction::try_from(&bytes[..]).unwrap();
    assert_same(&decoded, &transaction);
    assert_eq!(decoded.serialize(), bytes);
}

#[test]
fn round_trip_with_many_inputs() {
    let mut builder = LegacyTransaction::builder();
    for i in 0..300u32 {
        builder = builder.add_input(TxInput {
            previous_output: OutPoint { txid: [(i % 256) as u8; 32], vout: i },
            script_sig: vec![i as u8; (i % 5) as usize],
            sequence: i,
        });
    }
    let transaction = builder.build();
    let bytes = transaction.serialize();
    assert_eq!(&bytes[4..7], &[253, 0x2c, 0x01]);
    let decoded = LegacyTransaction::try_from(&bytes[..]).unwrap();
    assert_same(&decoded, &transaction);
}

#[test]
fn round_trip_of_negative_version() {
    let transaction = LegacyTransaction::builder().version(-2).lock_time(u32::MAX).build();
    let bytes = transaction.serialize();
    assert_eq!(bytes, vec![0xfe, 0xff, 0xff, 0xff, 0, 0, 0xff, 0xff, 0xff, 0xff]);
    let decoded = LegacyTransaction::try_from(&bytes[..]).unwrap();
    assert_eq!(decoded.version, -2);
    assert_eq!(decoded.lock_time, u32::MAX);
    let lowest = LegacyTransaction::builder().version(i32::MIN).build();
    let decoded = LegacyTransaction::try_from(&lowest.serialize()[..]).unwrap();
    assert_eq!(decoded.version, i32::MIN);
    let highest = LegacyTransaction::builder().version(i32::MAX).build();
    let decoded = LegacyTransaction::try_from(&highest.serialize()[..]).unwrap();
    assert_eq!(decoded.version, i32::MAX);
}

#[test]
fn serialize_lays_the_fields_out_in_wire_order() {
    let transaction = LegacyTransaction::builder()
        .version(0x0102_0304)
        .add_input(TxInput {
            previous_output: OutPoint { txid: sample_txid(), vout: 0x0a0b_0c0d },
            script_sig: vec![0xde, 0xad],
            sequence: 0x1122_3344,
        })
        .add_output(TxOutput { value: 0x0102_0304_0506_0708, script_pubkey: vec![0xbe, 0xef, 0x00] })
        .lock_time(0x5566_7788)
        .build();
    let mut expected = vec![0x04, 0x03, 0x02, 0x01, 1];
    expected.extend((1..=32u8).rev());
    expected.extend_from_slice(&[0x0d, 0x0c, 0x0b, 0x0a]);
    expected.extend_from_slice(&[2, 0xde, 0xad]);
    expected.extend_from_slice(&[0x44, 0x33, 0x22, 0x11]);
    expected.push(1);
    expected.extend_from_slice(&[0x08, 0x07, 0x06, 0x05, 0x04, 0x03, 0x02, 0x01]);
    expected.extend_from_slice(&[3, 0xbe, 0xef, 0x00]);
    expected.extend_from_slice(&[0x88, 0x77, 0x66, 0x55]);
    assert_eq!(transaction.serialize(), expected);
}

#[test]
fn nine_bytes_are_rejected_as_invalid_transaction() {
    let bytes = [0u8; 9];
    assert!(matches!(
        LegacyTransaction::try_from(&bytes[..]),
        Err(BitcoinError::InvalidTransaction)
    ));
}

#[test]
fn empty_buffer_is_rejected_as_invalid_transaction() {
    let bytes: [u8; 0] = [];
    assert!(matches!(
        LegacyTransaction::try_from(&bytes[..]),
        Err(BitcoinError::InvalidTransaction)
    ));
}

#[test]
fn ten_zero_bytes_are_an_empty_transaction() {
    let bytes = [0u8; 10];
    let decoded = LegacyTransaction::try_from(&bytes[..]).unwrap();
    assert_eq!(decoded.version, 0);
    assert!(decoded.inputs.is_empty());
    assert!(decoded.outputs.is_empty());
    assert_eq!(decoded.lock_time, 0);
}

#[test]
fn txid_is_reversed_on_decode_and_back_on_encode() {
    let mut bytes = vec![1, 0, 0, 0, 1];
    let mut wire_txid = [0u8; 32];
    wire_txid[0] = 0x01;
    bytes.extend_from_slice(&wire_txid);
    bytes.extend_from_slice(&[0, 0, 0, 0]);
    bytes.push(0);
    bytes.extend_from_slice(&[0, 0, 0, 0]);
    bytes.push(0);
    bytes.extend_from_slice(&[0, 0, 0, 0]);
    let decoded = LegacyTransaction::try_from(&bytes[..]).unwrap();
    let mut expected = [0u8; 32];
    expected[31] = 0x01;
    assert_eq!(decoded.inputs[0].previous_output.txid, expected);
    let encoded = decoded.serialize();
    assert_eq!(&encoded[5..37], &wire_txid);
    assert_eq!(encoded, bytes);
}

#[test]
fn end_to_end_handcrafted_transaction() {
    let bytes = handcrafted();
    assert_eq!(bytes.len(), 60);
    let transaction = LegacyTransaction::try_from(&bytes[..]).unwrap();
    assert_eq!(transaction.version, 1);
    assert_eq!(transaction.inputs.len(), 1);
    assert_eq!(transaction.inputs[0].previous_output.txid, [0u8; 32]);
    assert_eq!(transaction.inputs[0].previous_output.vout, 0xFFFF_FFFF);
    assert!(transaction.inputs[0].script_sig.is_empty());
    assert_eq!(transaction.inputs[0].sequence, 0xFFFF_FFFF);
    assert_eq!(transaction.outputs.len(), 1);
    assert_eq!(transaction.outputs[0].value, 5_000_000_000);
    assert!(transaction.outputs[0].script_pubkey.is_empty());
    assert_eq!(transaction.lock_time, 0);
    assert_eq!(transaction.serialize(), bytes);
}

#[test]
fn trailing_bytes_are_not_an_error() {
    let mut bytes = handcrafted();
    bytes.extend_from_slice(&[0xde, 0xad, 0xbe, 0xef]);
    let transaction = LegacyTransaction::try_from(&bytes[..]).unwrap();
    assert_eq!(transaction.serialize(), handcrafted());
}

#[test]
fn every_truncation_of_a_transaction_is_rejected() {
    let bytes = sample_transaction().serialize();
    for len in 0..bytes.len() {
        let result = LegacyTransaction::try_from(&bytes[..len]);
        if len < 10 {
            assert!(matches!(result, Err(BitcoinError::InvalidTransaction)));
        } else {
            assert!(matches!(result, Err(BitcoinError::InvalidScript)));
        }
    }
}

#[test]
fn input_count_beyond_the_buffer_is_rejected() {
    let bytes = [1, 0, 0, 0, 255, 0xff, 0xff, 0xff, 0xff, 0xff, 0xff, 0xff, 0xff, 0, 0, 0, 0, 0];
    assert!(matches!(LegacyTransaction::try_from(&bytes[..]), Err(BitcoinError::InvalidScript)));
}

#[test]
fn script_length_beyond_the_buffer_is_rejected() {
    let mut bytes = vec![1, 0, 0, 0, 1];
    bytes.extend_from_slice(&[0u8; 36]);
    bytes.extend_from_slice(&[255, 0xff, 0xff, 0xff, 0xff, 0xff, 0xff, 0xff, 0xff]);
    bytes.extend_from_slice(&[0u8; 20]);
    assert!(matches!(LegacyTransaction::try_from(&bytes[..]), Err(BitcoinError::InvalidScript)));
}

#[test]
fn non_canonical_counts_decode_and_re_encode_shortest() {
    let bytes = [1, 0, 0, 0, 253, 0, 0, 254, 0, 0, 0, 0, 9, 0, 0, 0];
    let transaction = LegacyTransaction::try_from(&bytes[..]).unwrap();
    assert!(transaction.inputs.is_empty());
    assert!(transaction.outputs.is_empty());
    assert_eq!(transaction.lock_time, 9);
    assert_eq!(transaction.serialize(), vec![1, 0, 0, 0, 0, 0, 9, 0, 0, 0]);
}

#[test]
fn read_input_and_write_input_agree() {
    let input = TxInput {
        previous_output: OutPoint { txid: sample_txid(), vout: 5 },
        script_sig: vec![1, 2, 3, 4],
        sequence: 6,
    };
    let mut bytes = Vec::new();
    write_input(&input, &mut bytes);
    assert_eq!(bytes.len(), 32 + 4 + 1 + 4 + 4);
    bytes.push(0x99);
    let mut cursor = Cursor::new(&bytes);
    let decoded = read_input(&mut cursor).unwrap();
    assert_eq!(cursor.position(), 45);
    assert_eq!(decoded.previous_output.txid, input.previous_output.txid);
    assert_eq!(decoded.previous_output.vout, 5);
    assert_eq!(decoded.script_sig, vec![1, 2, 3, 4]);
    assert_eq!(decoded.sequence, 6);
    assert!(matches!(read_input(&mut cursor), Err(BitcoinError::InvalidScript)));
    assert_eq!(cursor.position(), 45);
}

#[test]
fn read_input_cut_short_consumes_nothing() {
    let input = TxInput {
        previous_output: OutPoint { txid: sample_txid(), vout: 5 },
        script_sig: vec![1, 2, 3, 4],
        sequence: 6,
    };
    let mut bytes = Vec::new();
    write_input(&input, &mut bytes);
    for len in 0..bytes.len() {
        let mut cursor = Cursor::new(&bytes[..len]);
        assert!(matches!(read_input(&mut cursor), Err(BitcoinError::InvalidScript)));
        assert_eq!(cursor.position(), 0);
    }
}

#[test]
fn read_output_and_write_output_agree() {
    let output = TxOutput { value: 42, script_pubkey: vec![9, 8, 7] };
    let mut bytes = vec![0xee];
    write_output(&output, &mut bytes);
    assert_eq!(bytes, vec![0xee, 42, 0, 0, 0, 0, 0, 0, 0, 3, 9, 8, 7]);
    let mut cursor = Cursor::new(&bytes);
    cursor.take(1).unwrap();
    let decoded = read_output(&mut cursor).unwrap();
    assert_eq!(cursor.position(), 13);
    assert_eq!(decoded.value, 42);
    assert_eq!(decoded.script_pubkey, vec![9, 8, 7]);
    for len in 1..bytes.len() {
        let mut cursor = Cursor::new(&bytes[1..len]);
        assert!(matches!(read_output(&mut cursor), Err(BitcoinError::InvalidScript)));
        assert_eq!(cursor.position(), 0);
    }
}

#[test]
fn read_lists_stop_at_the_count() {
    let transaction = sample_transaction();
    let mut bytes = Vec::new();
    for input in &transaction.inputs {
        write_input(input, &mut bytes);
    }
    let inputs_len = bytes.len() as u64;
    for output in &transaction.outputs {
        write_output(output, &mut bytes);
    }
    let only_inputs = &bytes[..inputs_len as usize];
    let mut short = Cursor::new(only_inputs);
    assert!(matches!(read_inputs(3, &mut short), Err(BitcoinError::InvalidScript)));
    assert_eq!(short.position(), 0);
    let mut cursor = Cursor::new(&bytes);
    assert!(read_inputs(0, &mut cursor).unwrap().is_empty());
    assert_eq!(cursor.position(), 0);
    let inputs = read_inputs(2, &mut cursor).unwrap();
    assert_eq!(inputs.len(), 2);
    assert_eq!(inputs[0].script_sig, vec![0x51, 0x52, 0x53]);
    assert_eq!(inputs[1].sequence, 7);
    assert_eq!(cursor.position(), inputs_len);
    assert!(matches!(read_outputs(4, &mut cursor), Err(BitcoinError::InvalidScript)));
    assert_eq!(cursor.position(), inputs_len);
    let outputs = read_outputs(3, &mut cursor).unwrap();
    assert_eq!(outputs.len(), 3);
    assert_eq!(outputs[1].script_pubkey, vec![0x6a; 300]);
    assert_eq!(cursor.position(), bytes.len() as u64);
    assert!(matches!(read_outputs(u64::MAX, &mut cursor), Err(BitcoinError::InvalidScript)));
}
