use axon_executor::decode::decode_tx;
use axon_executor::transaction::{
    AccessListItem, Eip1559Transaction, Eip2930Transaction, LegacyTransaction,
    SignatureComponents, TransactionAction, TypesError, UnsignedTransaction,
    UnverifiedTransaction,
};
use axon_executor::types::{H160, H256};

fn addr(b: u8) -> H160 {
    H160 { v: vec![b; 20] }
}

fn word(b: u8) -> H256 {
    H256 { v: vec![b; 32] }
}

fn sig() -> SignatureComponents {
    SignatureComponents { r: vec![0x41u8; 32], s: vec![0x42u8; 32], standard_v: 1 }
}

fn assert_action_eq(a: &TransactionAction, b: &TransactionAction) {
    match (a, b) {
        (TransactionAction::Call(x), TransactionAction::Call(y)) => assert_eq!(x.v, y.v),
        (TransactionAction::Create, TransactionAction::Create) => {}
        _ => panic!("action mismatch"),
    }
}

fn assert_access_list_eq(a: &Vec<AccessListItem>, b: &Vec<AccessListItem>) {
    assert_eq!(a.len(), b.len());
    for (x, y) in a.iter().zip(b.iter()) {
        assert_eq!(x.address.v, y.address.v);
        assert_eq!(x.storage_keys.len(), y.storage_keys.len());
        for (k, l) in x.storage_keys.iter().zip(y.storage_keys.iter()) {
            assert_eq!(k.v, l.v);
        }
    }
}

fn assert_sig_eq(a: &Option<SignatureComponents>, b: &Option<SignatureComponents>) {
    match (a, b) {
        (Some(x), Some(y)) => {
            assert_eq!(x.r, y.r);
            assert_eq!(x.s, y.s);
            assert_eq!(x.standard_v, y.standard_v);
        }
        (None, None) => {}
        _ => panic!("signature mismatch"),
    }
}

fn round_trip(utx: &UnverifiedTransaction) -> UnverifiedTransaction {
    let sig = utx.signature.clone();
    let encoded = utx.unsigned.encode(utx.chain_id, sig);
    let decoded = decode_tx(&encoded).expect("canonical encoding must decode");
    assert_eq!(decoded.chain_id, utx.chain_id);
    assert_sig_eq(&decoded.signature, &utx.signature);
    decoded
}

#[test]
fn legacy_round_trip_signed_and_unsigned() {
    let tx = LegacyTransaction {
        nonce: 3,
        gas_price: 1_000_000_007,
        gas_limit: 21000,
        action: TransactionAction::Call(addr(0x15)),
        value: 1_000_000_000_000_000_000,
        data: vec![0xde, 0xad, 0xbe, 0xef],
    };
    let utx = UnverifiedTransaction {
        unsigned: UnsignedTransaction::Legacy(tx),
        signature: Some(sig()),
        chain_id: Some(1),
        hash: H256::zero(),
    };
    let decoded = round_trip(&utx);
    match (&decoded.unsigned, &utx.unsigned) {
        (UnsignedTransaction::Legacy(a), UnsignedTransaction::Legacy(b)) => {
            assert_eq!(a.nonce, b.nonce);
            assert_eq!(a.gas_price, b.gas_price);
            assert_eq!(a.gas_limit, b.gas_limit);
            assert_action_eq(&a.action, &b.action);
            assert_eq!(a.value, b.value);
            assert_eq!(a.data, b.data);
        }
        _ => panic!("variant mismatch"),
    }

    let unsigned = UnverifiedTransaction {
        unsigned: decoded.unsigned,
        signature: None,
        chain_id: Some(7),
        hash: H256::zero(),
    };
    let decoded = round_trip(&unsigned);
    assert!(decoded.signature.is_none());
    assert_eq!(decoded.chain_id, Some(7));

    let bare = UnverifiedTransaction {
        unsigned: decoded.unsigned,
        signature: None,
        chain_id: None,
        hash: H256::zero(),
    };
    let decoded = round_trip(&bare);
    assert!(decoded.signature.is_none());
    assert_eq!(decoded.chain_id, None);
}

#[test]
fn eip2930_round_trip_with_access_list() {
    let tx = Eip2930Transaction {
        nonce: 9,
        gas_price: 55,
        gas_limit: 30000,
        action: TransactionAction::Create,
        value: 0,
        data: Vec::new(),
        access_list: vec![
            AccessListItem { address: addr(0x31), storage_keys: vec![word(1), word(2)] },
            AccessListItem { address: addr(0x32), storage_keys: Vec::new() },
        ],
    };
    let utx = UnverifiedTransaction {
        unsigned: UnsignedTransaction::Eip2930(tx),
        signature: Some(sig()),
        chain_id: Some(5),
        hash: H256::zero(),
    };
    let decoded = round_trip(&utx);
    match (&decoded.unsigned, &utx.unsigned) {
        (UnsignedTransaction::Eip2930(a), UnsignedTransaction::Eip2930(b)) => {
            assert_eq!(a.nonce, b.nonce);
            assert_eq!(a.gas_price, b.gas_price);
            assert_eq!(a.gas_limit, b.gas_limit);
            assert_action_eq(&a.action, &b.action);
            assert_eq!(a.value, b.value);
            assert_eq!(a.data, b.data);
            assert_access_list_eq(&a.access_list, &b.access_list);
        }
        _ => panic!("variant mismatch"),
    }
}

#[test]
fn eip1559_round_trip_keeps_priority_fee() {
    let tx = Eip1559Transaction {
        nonce: 11,
        max_priority_fee_per_gas: 1_337,
        gas_price: 2_000,
        gas_limit: 65000,
        action: TransactionAction::Call(addr(0x77)),
        value: 123_456,
        data: vec![7u8; 60],
        access_list: vec![AccessListItem { address: addr(0x41), storage_keys: vec![word(3)] }],
    };
    let utx = UnverifiedTransaction {
        unsigned: UnsignedTransaction::Eip1559(tx),
        signature: None,
        chain_id: Some(5),
        hash: H256::zero(),
    };
    let decoded = round_trip(&utx);
    match (&decoded.unsigned, &utx.unsigned) {
        (UnsignedTransaction::Eip1559(a), UnsignedTransaction::Eip1559(b)) => {
            assert_eq!(a.nonce, b.nonce);
            assert_eq!(a.max_priority_fee_per_gas, b.max_priority_fee_per_gas);
            assert_eq!(a.gas_price, b.gas_price);
            assert_eq!(a.gas_limit, b.gas_limit);
            assert_action_eq(&a.action, &b.action);
            assert_eq!(a.value, b.value);
            assert_eq!(a.data, b.data);
            assert_access_list_eq(&a.access_list, &b.access_list);
        }
        _ => panic!("variant mismatch"),
    }
}

#[test]
fn malformed_bytes_are_rejected() {
    assert!(matches!(decode_tx(&Vec::new()), Err(TypesError::InvalidWireFormat)));
    assert!(matches!(decode_tx(&vec![0x05]), Err(TypesError::InvalidWireFormat)));
    assert!(matches!(decode_tx(&vec![0xc3, 1, 2]), Err(TypesError::InvalidWireFormat)));
    // a truncated typed transaction
    assert!(matches!(decode_tx(&vec![0x02, 0xc2, 1]), Err(TypesError::InvalidWireFormat)));
}

#[test]
fn decoded_transaction_reencodes_to_the_same_bytes() {
    let tx = LegacyTransaction {
        nonce: 0,
        gas_price: 0,
        gas_limit: 0,
        action: TransactionAction::Create,
        value: 0,
        data: Vec::new(),
    };
    let utx = UnverifiedTransaction {
        unsigned: UnsignedTransaction::Legacy(tx),
        signature: Some(sig()),
        chain_id: None,
        hash: H256::zero(),
    };
    let encoded = utx.unsigned.encode(utx.chain_id, utx.signature.clone());
    let decoded = decode_tx(&encoded).unwrap();
    let reencoded = decoded.unsigned.encode(decoded.chain_id, decoded.signature.clone());
    assert_eq!(encoded, reencoded);
}
