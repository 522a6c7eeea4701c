use axon_executor::bloom::logs_bloom;
use axon_executor::crypto::keccak256;
use axon_executor::precompile::build_precompile_set;
use axon_executor::executor::{
    apply_credits, code_address, distribute_fees, is_transaction_call, receipts_trie_root,
    AxonExecutor, Backend, Config, DefaultFeeAllocator, ExecutorAdapter, FeeInlet, StateDiff,
    ValidatorExtend, VmOutcome,
};
use axon_executor::hardfork::{enable_hardfork, HardforkGate, HardforkName};
use axon_executor::memory::{MemoryAdapter, NoopGateway, ScriptedVm, StaticMetadata};
use axon_executor::precompile::{Context, GetCell, PrecompileFailure};
use axon_executor::transaction::{
    public_to_address, recover_intact_pub_key, Eip1559Transaction, LegacyTransaction,
    SignatureComponents, SignedTransaction, TransactionAction, TypesError, UnsignedTransaction,
    UnverifiedTransaction,
};
use axon_executor::types::{Account, ExitReason, ExitSucceed, Log, Public, TxResp, H160, H256};

fn h160(bytes: [u8; 20]) -> H160 {
    H160 { v: bytes.to_vec() }
}

fn zero_resp() -> TxResp {
    TxResp {
        exit_reason: ExitReason::Succeed(ExitSucceed::Stopped),
        ret: Vec::new(),
        remain_gas: 0,
        gas_used: 0,
        fee_cost: 0,
        logs: Vec::new(),
        code_address: None,
        removed: false,
    }
}

fn default_eip1559_signed() -> SignedTransaction {
    let eip1559_tx = Eip1559Transaction {
        nonce: 0,
        max_priority_fee_per_gas: 0,
        gas_price: 0,
        gas_limit: 0,
        action: TransactionAction::Create,
        value: 0,
        data: Vec::new(),
        access_list: Vec::new(),
    };
    let unsigned_tx = UnsignedTransaction::Eip1559(eip1559_tx);
    let unverified_tx = UnverifiedTransaction {
        unsigned: unsigned_tx,
        signature: None,
        chain_id: None,
        hash: H256::zero(),
    };
    SignedTransaction { transaction: unverified_tx, sender: H160::zero(), public: None }
}

#[test]
fn test_receipt() {
    let tx = default_eip1559_signed();

    let log = Log { address: H160::zero(), topics: Vec::new(), data: Vec::new() };
    let mut tx_resp = zero_resp();
    tx_resp.gas_used = 10;
    tx_resp.logs = vec![log];

    let bloom = logs_bloom(&tx_resp.logs);
    let receipt = tx.encode_receipt(&tx_resp, bloom);

    let reference_encode: Vec<u8> = [
        2u8, 249, 1, 30, 1, 10, 185, 1, 0, 0, 0, 0, 0, 0, 0, 0, 0, 0, 128, 0, 0, 0, 0, 0, 0, 0, 0,
        0, 0, 0, 0, 0, 0, 0, 0, 0, 0, 0, 0, 0, 0, 0, 0, 0, 0, 0, 0, 0, 0, 0, 0, 0, 0, 0, 0, 0, 2,
        0, 0, 0, 0, 0, 0, 0, 0, 0, 0, 0, 0, 0, 0, 0, 0, 0, 0, 0, 0, 0, 0, 0, 0, 0, 0, 0, 0, 0, 0,
        0, 0, 0, 0, 0, 0, 0, 0, 0, 0, 0, 0, 0, 0, 0, 0, 0, 0, 0, 0, 0, 0, 0, 0, 0, 0, 0, 0, 0, 0,
        0, 0, 0, 0, 0, 0, 0, 0, 0, 0, 0, 0, 0, 0, 0, 0, 0, 0, 0, 0, 0, 0, 0, 0, 0, 0, 0, 0, 0, 0,
        0, 0, 0, 0, 0, 1, 0, 0, 0, 0, 0, 0, 0, 0, 0, 0, 0, 0, 0, 0, 0, 0, 0, 0, 0, 0, 0, 0, 0, 0,
        0, 0, 0, 0, 0, 0, 0, 0, 0, 0, 0, 0, 0, 0, 0, 0, 0, 0, 0, 0, 0, 0, 0, 0, 0, 0, 0, 0, 0, 0,
        0, 0, 0, 0, 0, 0, 0, 0, 0, 0, 0, 0, 0, 0, 0, 0, 0, 0, 0, 0, 0, 0, 0, 0, 0, 0, 0, 0, 0, 0,
        0, 0, 0, 0, 0, 0, 0, 0, 0, 0, 0, 0, 0, 0, 0, 0, 0, 0, 0, 0, 0, 0, 0, 0, 0, 0, 0, 0, 216,
        215, 148, 0, 0, 0, 0, 0, 0, 0, 0, 0, 0, 0, 0, 0, 0, 0, 0, 0, 0, 0, 0, 192, 128,
    ]
    .to_vec();

    assert_eq!(receipt, reference_encode);

    let encode_receipts = vec![receipt];
    let receipt_root = receipts_trie_root(&encode_receipts);

    let reference_root = [
        197u8, 180, 204, 76, 181, 157, 142, 152, 246, 237, 148, 126, 24, 207, 94, 119, 119, 205,
        11, 16, 193, 17, 102, 157, 61, 7, 166, 133, 173, 208, 124, 6,
    ];
    assert_eq!(receipt_root.v, reference_root.to_vec());
}

#[test]
fn test_config_contract_limit() {
    let config = Config::london();
    assert_eq!(config.create_contract_limit, Some(0x6000));
}

#[test]
fn empty_receipt_list_yields_null_trie_sentinel() {
    let root = receipts_trie_root(&Vec::new());
    let rlp_null = [
        0x56u8, 0xe8, 0x1f, 0x17, 0x1b, 0xcc, 0x55, 0xa6, 0xff, 0x83, 0x45, 0xe6, 0x92, 0xc0,
        0xf8, 0x6e, 0x5b, 0x48, 0xe0, 0x1b, 0x99, 0x6c, 0xad, 0xc0, 0x01, 0x62, 0x2f, 0xb5, 0xe3,
        0x63, 0xb4, 0x21,
    ];
    assert_eq!(root.v, rlp_null.to_vec());
}

#[test]
fn exec_empty_block_commits_and_uses_sentinel_root() {
    let executor = AxonExecutor;
    let mut adapter = MemoryAdapter::new(1);
    let mut gateway = NoopGateway::new();
    let mut vm = ScriptedVm { outcomes: Vec::new() };
    let gate = HardforkGate::new(0);
    let meta = StaticMetadata { limit: 0x6000 };
    let resp = executor.exec(
        &mut adapter,
        &mut gateway,
        &mut vm,
        &DefaultFeeAllocator,
        &meta,
        &gate,
        &Vec::new(),
        &Vec::new(),
    );
    assert_eq!(resp.tx_resp.len(), 0);
    assert_eq!(resp.gas_used, 0);
    let rlp_null = receipts_trie_root(&Vec::new());
    assert_eq!(resp.receipt_root.v, rlp_null.v);
    // no fee was distributed: the origin account is untouched
    let origin = adapter.origin();
    assert_eq!(adapter.get_account(&origin).balance, 0);
}

#[test]
fn exec_single_transaction_roots_and_gas() {
    let executor = AxonExecutor;
    let mut adapter = MemoryAdapter::new(1);
    let sender = h160([7u8; 20]);
    adapter.save_account(&sender, &Account { nonce: 0, balance: 1_000_000 });

    let mut tx = default_eip1559_signed();
    tx.sender = h160([7u8; 20]);
    match &mut tx.transaction.unsigned {
        UnsignedTransaction::Eip1559(inner) => {
            inner.gas_limit = 100;
            inner.gas_price = 2;
        }
        _ => unreachable!(),
    }

    let outcome = VmOutcome {
        exit_reason: ExitReason::Succeed(ExitSucceed::Returned),
        ret: vec![1, 2],
        remain_gas: 60,
        used_gas: 40,
        logs: vec![Log { address: h160([7u8; 20]), topics: Vec::new(), data: vec![9] }],
        diff: StateDiff { accounts: Vec::new() },
    };
    let mut gateway = NoopGateway::new();
    let mut vm = ScriptedVm { outcomes: vec![outcome] };
    let gate = HardforkGate::new(0);
    let meta = StaticMetadata { limit: 0x6000 };
    let resp = executor.exec(
        &mut adapter,
        &mut gateway,
        &mut vm,
        &DefaultFeeAllocator,
        &meta,
        &gate,
        &vec![tx],
        &Vec::new(),
    );
    assert_eq!(resp.tx_resp.len(), 1);
    assert_eq!(resp.gas_used, 40);
    assert_eq!(resp.tx_resp[0].fee_cost, 80);
    assert_eq!(resp.tx_resp[0].logs.len(), 1);

    let tx2 = {
        let mut t = default_eip1559_signed();
        t.sender = h160([7u8; 20]);
        match &mut t.transaction.unsigned {
            UnsignedTransaction::Eip1559(inner) => {
                inner.gas_limit = 100;
                inner.gas_price = 2;
            }
            _ => unreachable!(),
        }
        t
    };
    let bloom = logs_bloom(&resp.tx_resp[0].logs);
    let receipt = tx2.encode_receipt(&resp.tx_resp[0], bloom);
    let root = receipts_trie_root(&vec![receipt]);
    assert_eq!(resp.receipt_root.v, root.v);
}

#[test]
fn evm_path_increments_nonce_once_on_any_exit() {
    let exits = [
        ExitReason::Succeed(ExitSucceed::Returned),
        ExitReason::Revert,
        ExitReason::Error,
    ];
    for exit in exits {
        let mut adapter = MemoryAdapter::new(1);
        let sender = h160([3u8; 20]);
        adapter.save_account(&sender, &Account { nonce: 5, balance: 1000 });
        adapter.set_gas_price(2);

        let mut tx = default_eip1559_signed();
        tx.sender = h160([3u8; 20]);
        match &mut tx.transaction.unsigned {
            UnsignedTransaction::Eip1559(inner) => inner.gas_limit = 100,
            _ => unreachable!(),
        }

        let success = matches!(exit, ExitReason::Succeed(_));
        let outcome = VmOutcome {
            exit_reason: exit,
            ret: Vec::new(),
            remain_gas: 90,
            used_gas: 10,
            logs: Vec::new(),
            diff: StateDiff { accounts: Vec::new() },
        };
        let mut vm = ScriptedVm { outcomes: vec![outcome] };
        let config = Config::london();
        let precompiles = build_precompile_set();
        let resp = AxonExecutor::evm_exec(&mut adapter, &mut vm, &config, &precompiles, &tx);

        let account = adapter.get_account(&sender);
        assert_eq!(account.nonce, 6);
        assert_eq!(resp.fee_cost, 20);
        assert!(resp.removed == false);
        // prepay 200 clamps the balance at 0... balance 1000: 1000-200=800, +90*2 refund = 980
        assert_eq!(account.balance, 980);
        let _ = success;
    }
}

#[test]
fn fee_distribution_skipped_at_genesis() {
    let proposer = h160([9u8; 20]);
    let mut adapter = MemoryAdapter::new(0);
    adapter.set_origin(&proposer);
    distribute_fees(&mut adapter, &DefaultFeeAllocator, 0, 500, &Vec::new());
    assert_eq!(adapter.get_account(&proposer).balance, 0);

    let mut adapter = MemoryAdapter::new(1);
    adapter.set_origin(&proposer);
    distribute_fees(&mut adapter, &DefaultFeeAllocator, 1, 500, &Vec::new());
    assert_eq!(adapter.get_account(&proposer).balance, 500);
}

#[test]
fn fee_total_clamps_at_maximum() {
    let executor = AxonExecutor;
    let mut adapter = MemoryAdapter::new(1);
    let sender = h160([4u8; 20]);
    adapter.save_account(&sender, &Account { nonce: 0, balance: u128::MAX });
    let proposer = h160([9u8; 20]);

    let mk_tx = || {
        let mut t = default_eip1559_signed();
        t.sender = h160([4u8; 20]);
        match &mut t.transaction.unsigned {
            UnsignedTransaction::Eip1559(inner) => {
                inner.gas_limit = 2;
                inner.gas_price = u128::MAX / 2;
            }
            _ => unreachable!(),
        }
        t
    };
    let mk_outcome = || VmOutcome {
        exit_reason: ExitReason::Revert,
        ret: Vec::new(),
        remain_gas: 0,
        used_gas: 2,
        logs: Vec::new(),
        diff: StateDiff { accounts: Vec::new() },
    };

    let mut gateway = NoopGateway::new();
    let mut vm = ScriptedVm { outcomes: vec![mk_outcome(), mk_outcome()] };
    let gate = HardforkGate::new(0);
    let meta = StaticMetadata { limit: 0x6000 };
    let resp = executor.exec(
        &mut adapter,
        &mut gateway,
        &mut vm,
        &DefaultFeeAllocator,
        &meta,
        &gate,
        &vec![mk_tx(), mk_tx()],
        &Vec::new(),
    );
    // each fee is (u128::MAX / 2) * 2 = u128::MAX - 1; their sum saturates,
    // and the credited balance saturates at the maximum instead of wrapping.
    assert_eq!(resp.tx_resp[0].fee_cost, u128::MAX - 1);
    assert_eq!(resp.tx_resp[1].fee_cost, u128::MAX - 1);
    assert_eq!(adapter.get_account(&sender).balance, u128::MAX);
    assert_eq!(adapter.get_account(&sender).nonce, 2);
    let _ = proposer;
}

#[test]
fn may_cost_fails_on_overflow_and_saturates_value() {
    let tx = UnsignedTransaction::Legacy(LegacyTransaction {
        nonce: 0,
        gas_price: u128::MAX,
        gas_limit: 2,
        action: TransactionAction::Create,
        value: 0,
        data: Vec::new(),
    });
    assert!(matches!(tx.may_cost(), Err(TypesError::PrepayGasIsTooLarge)));

    let tx = UnsignedTransaction::Legacy(LegacyTransaction {
        nonce: 0,
        gas_price: 3,
        gas_limit: 4,
        action: TransactionAction::Create,
        value: 5,
        data: Vec::new(),
    });
    assert!(matches!(tx.may_cost(), Ok(17)));

    let tx = UnsignedTransaction::Legacy(LegacyTransaction {
        nonce: 0,
        gas_price: u128::MAX,
        gas_limit: 1,
        action: TransactionAction::Create,
        value: 1,
        data: Vec::new(),
    });
    assert!(matches!(tx.may_cost(), Ok(u128::MAX)));
}

#[test]
fn check_hash_accepts_own_hash_and_rejects_mutation() {
    let unsigned = UnsignedTransaction::Legacy(LegacyTransaction {
        nonce: 7,
        gas_price: 11,
        gas_limit: 21000,
        action: TransactionAction::Call(h160([5u8; 20])),
        value: 13,
        data: vec![0xab, 0xcd],
    });
    let sig = SignatureComponents { r: vec![1u8; 32], s: vec![2u8; 32], standard_v: 1 };
    let utx = UnverifiedTransaction {
        unsigned,
        signature: Some(sig),
        chain_id: Some(5),
        hash: H256::zero(),
    };
    let utx = utx.calc_hash();
    assert!(matches!(utx.check_hash(), Ok(())));

    let mut mutated = UnverifiedTransaction {
        unsigned: match &utx.unsigned {
            UnsignedTransaction::Legacy(tx) => UnsignedTransaction::Legacy(LegacyTransaction {
                nonce: tx.nonce + 1,
                gas_price: tx.gas_price,
                gas_limit: tx.gas_limit,
                action: TransactionAction::Call(h160([5u8; 20])),
                value: tx.value,
                data: tx.data.clone(),
            }),
            _ => unreachable!(),
        },
        signature: utx.signature.clone(),
        chain_id: utx.chain_id,
        hash: H256 { v: utx.hash.v.clone() },
    };
    assert!(matches!(
        mutated.check_hash(),
        Err(TypesError::TxHashMismatch { .. })
    ));
    mutated.chain_id = Some(6);
    assert!(matches!(mutated.check_hash(), Err(TypesError::TxHashMismatch { .. })));
}

#[test]
fn encode_decodes_nothing_but_signing_inverts_recovery() {
    let secp = secp256k1::Secp256k1::new();
    let sk = secp256k1::SecretKey::from_slice(&[0x11u8; 32]).unwrap();
    let pk = secp256k1::PublicKey::from_secret_key(&secp, &sk);

    let unsigned = UnsignedTransaction::Eip1559(Eip1559Transaction {
        nonce: 1,
        max_priority_fee_per_gas: 3,
        gas_price: 10,
        gas_limit: 21000,
        action: TransactionAction::Call(h160([8u8; 20])),
        value: 42,
        data: vec![1, 2, 3],
        access_list: Vec::new(),
    });
    let utx = UnverifiedTransaction {
        unsigned,
        signature: None,
        chain_id: Some(5),
        hash: H256::zero(),
    };
    let digest = utx.signature_hash(true);
    let msg = secp256k1::Message::from_digest_slice(&digest.v).unwrap();
    let rsig = secp.sign_ecdsa_recoverable(&msg, &sk);
    let (rec_id, compact) = rsig.serialize_compact();
    let sig = SignatureComponents {
        r: compact[0..32].to_vec(),
        s: compact[32..64].to_vec(),
        standard_v: rec_id.to_i32() as u8,
    };
    let utx = UnverifiedTransaction {
        unsigned: utx.unsigned,
        signature: Some(sig),
        chain_id: utx.chain_id,
        hash: utx.hash,
    };

    let expected_pub = pk.serialize_uncompressed()[1..65].to_vec();
    let recovered = utx.recover_public(true).unwrap();
    assert_eq!(recovered.v, expected_pub);

    let st = SignedTransaction::from_unverified(utx).unwrap();
    assert_eq!(st.public.as_ref().unwrap().v, expected_pub);
    let h = keccak256(&expected_pub);
    assert_eq!(st.sender.v, h[12..32].to_vec());
    assert!(matches!(st.transaction.check_hash(), Ok(())));
}

#[test]
fn interoperation_sender_comes_from_embedded_key() {
    // r = marker 0x00 ++ rlp([32-byte hash, 0, 0, [1, 2, 3]])
    let mut r = vec![0u8];
    let mut payload: Vec<u8> = Vec::new();
    payload.push(0xa0);
    payload.extend_from_slice(&[0x11u8; 32]);
    payload.push(0x80);
    payload.push(0x80);
    payload.extend_from_slice(&[0x83, 1, 2, 3]);
    r.push(0xc0 + payload.len() as u8);
    r.extend_from_slice(&payload);

    let sig = SignatureComponents { r, s: Vec::new(), standard_v: 0 };
    let sender = sig.extract_interoperation_tx_sender().unwrap();
    let expected = keccak256(&vec![1u8, 2, 3]);
    assert_eq!(sender.v, expected[12..32].to_vec());

    let bad = SignatureComponents { r: vec![7u8, 1, 2], s: Vec::new(), standard_v: 0 };
    assert!(matches!(
        bad.extract_interoperation_tx_sender(),
        Err(TypesError::InvalidSignatureRType)
    ));
}

#[test]
fn unsigned_transaction_is_rejected() {
    let utx = UnverifiedTransaction {
        unsigned: UnsignedTransaction::Legacy(LegacyTransaction {
            nonce: 0,
            gas_price: 0,
            gas_limit: 0,
            action: TransactionAction::Create,
            value: 0,
            data: Vec::new(),
        }),
        signature: None,
        chain_id: None,
        hash: H256::zero(),
    };
    assert!(matches!(
        SignedTransaction::from_unverified(utx),
        Err(TypesError::Unsigned)
    ));
}

#[test]
fn hardfork_reads_follow_latest_swap() {
    let mut gate = HardforkGate::new(0);
    assert!(!enable_hardfork(&gate, HardforkName::Andromeda));
    gate.swap(1);
    assert!(enable_hardfork(&gate, HardforkName::Andromeda));
    gate.swap(0);
    assert!(!enable_hardfork(&gate, HardforkName::Andromeda));
}

#[test]
fn config_reads_metadata_limit_under_hardfork() {
    let executor = AxonExecutor;
    let adapter = MemoryAdapter::new(1);
    let roots = executor.init_local_system_contract_roots(&adapter);
    let meta = StaticMetadata { limit: 0x7777 };

    let gate = HardforkGate::new(0);
    let config = executor.config(&gate, &meta, &roots);
    assert_eq!(config.create_contract_limit, Some(0x6000));

    let gate = HardforkGate::new(1);
    let config = executor.config(&gate, &meta, &roots);
    assert_eq!(config.create_contract_limit, Some(0x7777));
}

#[test]
fn get_cell_costs_and_echoes() {
    let input = vec![0u8; 33];
    assert_eq!(GetCell::gas_cost(&input), 15 + 2 * 3);

    let ctx = Context { address: H160::zero(), caller: H160::zero(), apparent_value: 0 };
    let (out, gas) = GetCell::exec_fn(&input, Some(100), &ctx, false).unwrap();
    assert_eq!(gas, 21);
    assert_eq!(out.output, input);

    assert!(matches!(
        GetCell::exec_fn(&input, Some(20), &ctx, false),
        Err(PrecompileFailure::OutOfGas)
    ));
}

#[test]
fn transaction_call_predicate_matches_exact_address() {
    let addr = h160([1u8; 20]);
    let action = TransactionAction::Call(h160([1u8; 20]));
    assert!(is_transaction_call(&action, &addr));
    let other = h160([2u8; 20]);
    assert!(!is_transaction_call(&action, &other));
    assert!(!is_transaction_call(&TransactionAction::Create, &addr));
}

#[test]
fn standard_v_and_chain_id_extraction() {
    assert_eq!(SignatureComponents::extract_standard_v(27), Some(0));
    assert_eq!(SignatureComponents::extract_standard_v(28), Some(1));
    assert_eq!(SignatureComponents::extract_standard_v(37), Some(0));
    assert_eq!(SignatureComponents::extract_standard_v(38), Some(1));
    assert_eq!(SignatureComponents::extract_standard_v(30), None);
    assert_eq!(SignatureComponents::extract_chain_id(35), Some(0));
    assert_eq!(SignatureComponents::extract_chain_id(37), Some(1));
    assert_eq!(SignatureComponents::extract_chain_id(30), None);

    let sig = SignatureComponents { r: vec![1u8; 32], s: vec![2u8; 32], standard_v: 1 };
    assert_eq!(sig.add_chain_replay_protection(Some(5)), 1 + 2 * 5 + 35);
    assert_eq!(sig.add_chain_replay_protection(None), 28);
    assert_eq!(sig.len(), 65);
    assert!(sig.is_eth_sig());
    let bytes = sig.as_bytes();
    assert_eq!(bytes.len(), 65);
    assert_eq!(bytes[64], 1);
}

#[test]
fn created_contract_address_is_deterministic() {
    let sender = h160([6u8; 20]);
    let a = code_address(&sender, 0);
    let b = code_address(&sender, 0);
    let c = code_address(&sender, 1);
    assert_eq!(a.v, b.v);
    assert_ne!(a.v, c.v);
    assert_eq!(a.v.len(), 20);
}

#[test]
fn call_query_reports_creation_address_and_fee() {
    let executor = AxonExecutor;
    let mut adapter = MemoryAdapter::new(1);
    adapter.set_gas_price(3);
    let sender = h160([2u8; 20]);
    adapter.save_account(&sender, &Account { nonce: 4, balance: 0 });

    let outcome = VmOutcome {
        exit_reason: ExitReason::Succeed(ExitSucceed::Returned),
        ret: vec![5],
        remain_gas: 1,
        used_gas: 9,
        logs: Vec::new(),
        diff: StateDiff { accounts: Vec::new() },
    };
    let mut vm = ScriptedVm { outcomes: vec![outcome] };
    let gate = HardforkGate::new(0);
    let meta = StaticMetadata { limit: 0x6000 };
    let resp = executor.call(
        &adapter,
        &mut vm,
        &gate,
        &meta,
        10,
        Some(h160([2u8; 20])),
        None,
        0,
        Vec::new(),
    );
    assert_eq!(resp.fee_cost, 27);
    let expected = code_address(&sender, 4);
    assert_eq!(resp.code_address.unwrap().v, expected.v);

    let mut vm = ScriptedVm { outcomes: Vec::new() };
    let resp = executor.call(
        &adapter,
        &mut vm,
        &gate,
        &meta,
        10,
        Some(h160([2u8; 20])),
        Some(h160([1u8; 20])),
        0,
        Vec::new(),
    );
    assert!(resp.code_address.is_none());
    let v: Vec<ValidatorExtend> = Vec::new();
    let _ = v;
}

#[test]
fn effective_gas_price_takes_the_larger_of_base_and_priority() {
    let tx = UnsignedTransaction::Eip1559(Eip1559Transaction {
        nonce: 0,
        max_priority_fee_per_gas: 500,
        gas_price: 100,
        gas_limit: 0,
        action: TransactionAction::Create,
        value: 0,
        data: Vec::new(),
        access_list: Vec::new(),
    });
    assert_eq!(tx.gas_price(), 500);
    assert_eq!(tx.max_priority_fee_per_gas(), 500);

    let tx = UnsignedTransaction::Legacy(LegacyTransaction {
        nonce: 0,
        gas_price: 100,
        gas_limit: 0,
        action: TransactionAction::Create,
        value: 0,
        data: Vec::new(),
    });
    assert_eq!(tx.gas_price(), 100);
}

#[test]
fn legacy_signature_hash_drops_chain_id_fields_when_asked() {
    let utx = UnverifiedTransaction {
        unsigned: UnsignedTransaction::Legacy(LegacyTransaction {
            nonce: 1,
            gas_price: 2,
            gas_limit: 3,
            action: TransactionAction::Create,
            value: 4,
            data: Vec::new(),
        }),
        signature: None,
        chain_id: Some(5),
        hash: H256::zero(),
    };
    let with_chain = utx.signature_hash(true);
    let without_chain = utx.signature_hash(false);
    assert_ne!(with_chain.v, without_chain.v);

    let bare = UnverifiedTransaction {
        unsigned: utx.unsigned,
        signature: None,
        chain_id: None,
        hash: H256::zero(),
    };
    // without a chain id the reduced and full preimages coincide
    assert_eq!(bare.signature_hash(true).v, bare.signature_hash(false).v);
}

#[test]
fn public_key_address_and_intact_form() {
    let public = Public { v: vec![0x5au8; 64] };
    let a = public_to_address(&public);
    let h = keccak256(&public.v);
    assert_eq!(a.v, h[12..32].to_vec());
    let intact = recover_intact_pub_key(&public);
    assert_eq!(intact.v.len(), 65);
    assert_eq!(intact.v[0], 4);
    assert_eq!(intact.v[1..], public.v[..]);
}

#[test]
fn transaction_type_discriminants() {
    let legacy = UnsignedTransaction::Legacy(LegacyTransaction {
        nonce: 0,
        gas_price: 0,
        gas_limit: 0,
        action: TransactionAction::Create,
        value: 0,
        data: Vec::new(),
    });
    assert_eq!(legacy.type_(), 0);
    assert!(legacy.is_legacy());
    assert!(!legacy.is_eip1559());
    assert!(legacy.get_legacy().is_some());

    let tx = default_eip1559_signed();
    assert_eq!(tx.type_(), 2);
    assert_eq!(tx.transaction.unsigned.as_u8(), 2);
    assert!(tx.transaction.unsigned.is_eip1559());
    assert!(tx.transaction.unsigned.get_legacy().is_none());
    assert!(tx.get_to().is_none());
    assert!(!tx.is_eip155());
}

#[test]
fn credits_apply_exactly_in_order_and_skip_zero_amounts() {
    let mut adapter = MemoryAdapter::new(1);
    let a = h160([1u8; 20]);
    let b = h160([2u8; 20]);
    adapter.save_account(&a, &Account { nonce: 3, balance: 10 });
    let credits = vec![
        FeeInlet { address: h160([1u8; 20]), amount: 5 },
        FeeInlet { address: h160([2u8; 20]), amount: 0 },
        FeeInlet { address: h160([1u8; 20]), amount: 7 },
        FeeInlet { address: h160([2u8; 20]), amount: u128::MAX },
    ];
    apply_credits(&mut adapter, &credits);
    // two nonzero credits to the first address: 10 + 5 + 7
    assert_eq!(adapter.get_account(&a).balance, 22);
    assert_eq!(adapter.get_account(&a).nonce, 3);
    // the zero credit left the second address untouched; the huge one saturates
    assert_eq!(adapter.get_account(&b).balance, u128::MAX);
    assert_eq!(adapter.get_account(&b).nonce, 0);
}

#[test]
fn from_unverified_recovers_interoperation_sender() {
    // r = marker 0x00 ++ rlp([32-byte hash, 0, 0, [1, 2, 3]])
    let mut r = vec![0u8];
    let mut payload: Vec<u8> = Vec::new();
    payload.push(0xa0);
    payload.extend_from_slice(&[0x11u8; 32]);
    payload.push(0x80);
    payload.push(0x80);
    payload.extend_from_slice(&[0x83, 1, 2, 3]);
    r.push(0xc0 + payload.len() as u8);
    r.extend_from_slice(&payload);

    let utx = UnverifiedTransaction {
        unsigned: UnsignedTransaction::Eip1559(Eip1559Transaction {
            nonce: 0,
            max_priority_fee_per_gas: 0,
            gas_price: 0,
            gas_limit: 0,
            action: TransactionAction::Create,
            value: 0,
            data: Vec::new(),
            access_list: Vec::new(),
        }),
        signature: Some(SignatureComponents { r, s: Vec::new(), standard_v: 0 }),
        chain_id: Some(0),
        hash: H256::zero(),
    };
    let st = SignedTransaction::from_unverified(utx).unwrap();
    let expected = keccak256(&vec![1u8, 2, 3]);
    assert_eq!(st.sender.v, expected[12..32].to_vec());
    assert_eq!(st.public.as_ref().unwrap().v, vec![0u8; 64]);
    assert!(matches!(st.transaction.check_hash(), Ok(())));
}

#[test]
fn signature_without_marker_byte_is_a_typed_error() {
    // a non-standard-length signature whose r field is empty selects no
    // recovery scheme: typed error, never a panic
    let sig = SignatureComponents { r: Vec::new(), s: vec![1u8, 2], standard_v: 0 };
    assert!(matches!(
        sig.extract_interoperation_tx_sender(),
        Err(TypesError::InvalidSignatureRType)
    ));

    let utx = UnverifiedTransaction {
        unsigned: UnsignedTransaction::Eip1559(Eip1559Transaction {
            nonce: 0,
            max_priority_fee_per_gas: 0,
            gas_price: 0,
            gas_limit: 0,
            action: TransactionAction::Create,
            value: 0,
            data: Vec::new(),
            access_list: Vec::new(),
        }),
        signature: Some(SignatureComponents { r: Vec::new(), s: vec![1u8, 2], standard_v: 0 }),
        chain_id: None,
        hash: H256::zero(),
    };
    assert!(matches!(
        SignedTransaction::from_unverified(utx),
        Err(TypesError::InvalidSignatureRType)
    ));
}
