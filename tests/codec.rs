use btc_tx_codec::{
    decode_compact_size, encode_compact_size, BitcoinError, BitcoinTransaction, CompactSize,
    OutPoint, Script, TransactionInput, Txid,
};

fn sample_input(fill: u8, vout: u32, script: Vec<u8>, sequence: u32) -> TransactionInput {
    TransactionInput::new(OutPoint::new([fill; 32], vout), Script::new(script), sequence)
}

#[test]
fn compact_size_boundaries() {
    assert_eq!(CompactSize::new(252).to_bytes(), vec![0xFC]);
    let b = CompactSize::new(253).to_bytes();
    assert_eq!(b.len(), 3);
    assert_eq!(b[0], 0xFD);
    let b = CompactSize::new(65536).to_bytes();
    assert_eq!(b.len(), 5);
    assert_eq!(b[0], 0xFE);
    let b = CompactSize::new(4294967296).to_bytes();
    assert_eq!(b.len(), 9);
    assert_eq!(b[0], 0xFF);
}

#[test]
fn compact_size_exact_encodings() {
    assert_eq!(encode_compact_size(0), vec![0x00]);
    assert_eq!(encode_compact_size(0x1234), vec![0xFD, 0x34, 0x12]);
    assert_eq!(encode_compact_size(0xFFFF), vec![0xFD, 0xFF, 0xFF]);
    assert_eq!(encode_compact_size(0x0102_0304), vec![0xFE, 0x04, 0x03, 0x02, 0x01]);
    assert_eq!(
        encode_compact_size(u64::MAX),
        vec![0xFF, 0xFF, 0xFF, 0xFF, 0xFF, 0xFF, 0xFF, 0xFF, 0xFF]
    );
}

#[test]
fn compact_size_decode_two_byte_width() {
    let (cs, used) = CompactSize::from_bytes(&[0xFD, 0x00, 0x01]).unwrap();
    assert_eq!(cs.value, 256);
    assert_eq!(used, 3);
}

#[test]
fn compact_size_decode_wider_prefixes() {
    assert_eq!(decode_compact_size(&[0xFE, 0x04, 0x03, 0x02, 0x01, 0xAA]), Ok((0x0102_0304, 5)));
    assert_eq!(
        decode_compact_size(&[0xFF, 1, 0, 0, 0, 0, 0, 0, 0x80]),
        Ok((0x8000_0000_0000_0001, 9))
    );
    // a longer form than needed is still accepted
    assert_eq!(decode_compact_size(&[0xFD, 0x05, 0x00]), Ok((5, 3)));
    assert_eq!(decode_compact_size(&[0xFC, 0x01]), Ok((252, 1)));
}

#[test]
fn compact_size_truncated() {
    assert_eq!(CompactSize::from_bytes(&[0xFD, 0x01]), Err(BitcoinError::InsufficientBytes));
    assert_eq!(CompactSize::from_bytes(&[]), Err(BitcoinError::InsufficientBytes));
    assert_eq!(decode_compact_size(&[0xFE, 1, 2, 3]), Err(BitcoinError::InsufficientBytes));
    assert_eq!(
        decode_compact_size(&[0xFF, 1, 2, 3, 4, 5, 6, 7]),
        Err(BitcoinError::InsufficientBytes)
    );
}

#[test]
fn compact_size_round_trips() {
    for v in [0u64, 1, 252, 253, 65535, 65536, 4294967295, 4294967296, u64::MAX] {
        let bytes = CompactSize::new(v).to_bytes();
        assert_eq!(CompactSize::from_bytes(&bytes), Ok((CompactSize::new(v), bytes.len())));
    }
}

#[test]
fn outpoint_layout_and_length() {
    let mut id = [0u8; 32];
    id[0] = 0xAB;
    id[31] = 0xCD;
    let op = OutPoint::new(id, 0x0102_0304);
    let bytes = op.to_bytes();
    assert_eq!(bytes.len(), 36);
    assert_eq!(bytes[0], 0xAB);
    assert_eq!(bytes[31], 0xCD);
    assert_eq!(&bytes[32..], &[0x04, 0x03, 0x02, 0x01]);
    assert_eq!(OutPoint::from_bytes(&bytes), Ok((op, 36)));
}

#[test]
fn outpoint_short_buffers_fail() {
    let bytes = vec![7u8; 40];
    for n in 0..36 {
        assert_eq!(OutPoint::from_bytes(&bytes[..n]), Err(BitcoinError::InsufficientBytes));
    }
    let (op, used) = OutPoint::from_bytes(&bytes[..36]).unwrap();
    assert_eq!(used, 36);
    assert_eq!(op.txid, Txid([7u8; 32]));
    assert_eq!(op.vout, 0x0707_0707);
    assert_eq!(OutPoint::from_bytes(&bytes).unwrap().1, 36);
}

#[test]
fn empty_script() {
    let s = Script::new(vec![]);
    assert_eq!(s.to_bytes(), vec![0x00]);
    assert_eq!(Script::from_bytes(&[0x00]), Ok((Script::new(vec![]), 1)));
}

#[test]
fn script_with_body_and_trailing_bytes() {
    let s = Script::new(vec![0x51, 0x52, 0x53]);
    assert_eq!(s.to_bytes(), vec![0x03, 0x51, 0x52, 0x53]);
    assert_eq!(s.len(), 3);
    assert_eq!(Script::from_bytes(&[0x02, 0xAA, 0xBB, 0xCC]), Ok((Script::new(vec![0xAA, 0xBB]), 3)));
}

#[test]
fn script_long_body_uses_wide_prefix() {
    let body = vec![0x5Au8; 300];
    let bytes = Script::new(body.clone()).to_bytes();
    assert_eq!(&bytes[..3], &[0xFD, 0x2C, 0x01]);
    assert_eq!(bytes.len(), 303);
    assert_eq!(Script::from_bytes(&bytes), Ok((Script::new(body), 303)));
}

#[test]
fn script_truncated_body() {
    assert_eq!(Script::from_bytes(&[0x03, 0x01, 0x02]), Err(BitcoinError::InsufficientBytes));
    assert_eq!(Script::from_bytes(&[]), Err(BitcoinError::InsufficientBytes));
    assert_eq!(Script::from_bytes(&[0xFD, 0x01]), Err(BitcoinError::InsufficientBytes));
    let huge = [0xFF, 0xFF, 0xFF, 0xFF, 0xFF, 0xFF, 0xFF, 0xFF, 0xFF, 0x00];
    assert_eq!(Script::from_bytes(&huge), Err(BitcoinError::InsufficientBytes));
}

#[test]
fn transaction_input_round_trip() {
    let input = sample_input(0x11, 2, vec![0x01, 0x02], 0xFFFF_FFFE);
    let bytes = input.to_bytes();
    assert_eq!(bytes.len(), 36 + 3 + 4);
    assert_eq!(&bytes[36..39], &[0x02, 0x01, 0x02]);
    assert_eq!(&bytes[39..], &[0xFE, 0xFF, 0xFF, 0xFF]);
    assert_eq!(TransactionInput::from_bytes(&bytes), Ok((input, 43)));
}

#[test]
fn transaction_input_missing_sequence() {
    let bytes = sample_input(0x11, 2, vec![0x01], 5).to_bytes();
    assert_eq!(
        TransactionInput::from_bytes(&bytes[..bytes.len() - 1]),
        Err(BitcoinError::InsufficientBytes)
    );
    assert_eq!(TransactionInput::from_bytes(&bytes[..36]), Err(BitcoinError::InsufficientBytes));
    assert_eq!(TransactionInput::from_bytes(&bytes[..20]), Err(BitcoinError::InsufficientBytes));
}

#[test]
fn full_transaction_scenario() {
    let input = sample_input(0x00, 0xFFFF_FFFF, vec![], 0xFFFF_FFFF);
    let tx = BitcoinTransaction::new(1, vec![input], 0);
    let bytes = tx.to_bytes();
    assert_eq!(bytes.len(), 50);
    assert_eq!(&bytes[..5], &[0x01, 0x00, 0x00, 0x00, 0x01]);
    assert_eq!(&bytes[46..], &[0x00, 0x00, 0x00, 0x00]);
    let (decoded, used) = BitcoinTransaction::from_bytes(&bytes).unwrap();
    assert_eq!(used, 50);
    assert_eq!(decoded, tx);
}

#[test]
fn transaction_with_several_inputs_keeps_order() {
    let tx = BitcoinTransaction::new(
        2,
        vec![
            sample_input(0x01, 0, vec![0xAA], 1),
            sample_input(0x02, 1, vec![], 2),
            sample_input(0x03, 2, vec![0xBB, 0xCC], 3),
        ],
        0x0102_0304,
    );
    let mut bytes = tx.to_bytes();
    let n = bytes.len();
    bytes.push(0x99);
    assert_eq!(BitcoinTransaction::from_bytes(&bytes), Ok((tx, n)));
}

#[test]
fn transaction_without_inputs() {
    let tx = BitcoinTransaction::new(7, vec![], 9);
    let bytes = tx.to_bytes();
    assert_eq!(bytes, vec![7, 0, 0, 0, 0, 9, 0, 0, 0]);
    assert_eq!(BitcoinTransaction::from_bytes(&bytes), Ok((tx, 9)));
}

#[test]
fn transaction_input_count_mismatch() {
    let input = sample_input(0x00, 0, vec![], 0);
    let mut bytes = BitcoinTransaction::new(1, vec![input], 0).to_bytes();
    bytes[4] = 2;
    assert_eq!(BitcoinTransaction::from_bytes(&bytes), Err(BitcoinError::InsufficientBytes));
}

#[test]
fn transaction_truncations() {
    assert_eq!(BitcoinTransaction::from_bytes(&[1, 0, 0]), Err(BitcoinError::InsufficientBytes));
    assert_eq!(BitcoinTransaction::from_bytes(&[1, 0, 0, 0]), Err(BitcoinError::InsufficientBytes));
    let bytes = BitcoinTransaction::new(1, vec![], 0).to_bytes();
    assert_eq!(
        BitcoinTransaction::from_bytes(&bytes[..bytes.len() - 1]),
        Err(BitcoinError::InsufficientBytes)
    );
}

#[test]
fn txid_text_round_trip() {
    let zero = Txid([0u8; 32]);
    let text = zero.to_hex();
    assert_eq!(text, "0".repeat(64));
    assert_eq!(Txid::from_hex(&text), Ok(zero));
    assert_eq!(Txid::from_hex(&"0".repeat(63)), Err(BitcoinError::InvalidFormat));
    let mut bad = "0".repeat(62);
    bad.push_str("zz");
    assert_eq!(Txid::from_hex(&bad), Err(BitcoinError::InvalidFormat));
}

#[test]
fn txid_text_digits() {
    let mut id = [0u8; 32];
    id[0] = 0xAB;
    id[1] = 0x09;
    id[31] = 0xF0;
    let text = Txid(id).to_hex();
    assert!(text.starts_with("ab09"));
    assert!(text.ends_with("f0"));
    assert_eq!(Txid::from_hex(&text.to_uppercase()), Ok(Txid(id)));
    assert_eq!(Txid::from_hex(&"00".repeat(31)), Err(BitcoinError::InvalidFormat));
    assert_eq!(Txid::from_hex(&"00".repeat(33)), Err(BitcoinError::InvalidFormat));
}

#[test]
fn transaction_text_rendering() {
    let tx = BitcoinTransaction::new(
        1,
        vec![sample_input(0x00, 0xFFFF_FFFF, vec![], 0xFFFF_FFFF)],
        0,
    );
    let expected = format!(
        "Version: 1\nInput #0\n  Previous Output TXID: {}\n  Previous Output Vout: 4294967295\n  ScriptSig (0 bytes): \n  Sequence: 4294967295\nLock Time: 0\n",
        "0".repeat(64)
    );
    assert_eq!(tx.to_text(), expected);
}

#[test]
fn transaction_text_numbers_and_hex() {
    let tx = BitcoinTransaction::new(
        1234567,
        vec![
            sample_input(0xAB, 10, vec![0x0F, 0xA0], 305),
            sample_input(0x01, 0, vec![0xFF; 12], 0),
        ],
        500000,
    );
    let expected = format!(
        "Version: 1234567\nInput #0\n  Previous Output TXID: {}\n  Previous Output Vout: 10\n  ScriptSig (2 bytes): 0fa0\n  Sequence: 305\nInput #1\n  Previous Output TXID: {}\n  Previous Output Vout: 0\n  ScriptSig (12 bytes): {}\n  Sequence: 0\nLock Time: 500000\n",
        "ab".repeat(32),
        "01".repeat(32),
        "ff".repeat(12)
    );
    assert_eq!(tx.to_text(), expected);
    assert_eq!(BitcoinTransaction::new(0, vec![], 4294967295).to_text(), "Version: 0\nLock Time: 4294967295\n");
}
