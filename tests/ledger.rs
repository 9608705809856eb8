use ledger_core::chain::{Chain, Transaction, TransactionPool};
use ledger_core::error::LedgerError;
use ledger_core::executor::{
    get_balance, get_balance_request, RpcParam, SimulatedError, TransactionRpcService, BASE_GAS,
};
use ledger_core::trie::MerklePatriciaTrie;
use ledger_core::vm::{decode_instruction, Instruction, VirtualMachine};

fn sig(n: u64) -> String {
    format!("{:0128x}", n)
}

fn transfer(from: &str, to: &str, amount: u64, n: u64) -> Transaction {
    Transaction::new(from.as_bytes().to_vec(), to.as_bytes().to_vec(), amount, sig(n))
}

fn program(from: &str, payload: Vec<u8>, gas_limit: u64, n: u64) -> Transaction {
    Transaction {
        signature: sig(n),
        sender: from.as_bytes().to_vec(),
        recipient: None,
        amount: 0,
        payload,
        gas_limit,
    }
}

fn push(v: u64) -> Vec<u8> {
    let mut out = vec![0x01];
    out.extend_from_slice(&v.to_be_bytes());
    out
}

#[test]
fn test_get_transaction_by_signature() {
    let node = TransactionRpcService::new();
    let signature = String::default();
    let transaction = node.get_transaction(&signature);
    assert!(transaction.is_none());
}

#[test]
fn test_get_signatures_for_address() {
    let address = "0x1234567890abcdef".to_string();
    let mut node = TransactionRpcService::new();
    node.set_balance(address.as_bytes(), 50);
    assert!(node.submit_transaction(transfer(&address, "other", 5, 1)).is_ok());
    let signatures = node
        .get_signatures_for_address(address.as_bytes(), 10, None, None)
        .unwrap();
    assert!(!signatures.is_empty());
}

#[test]
fn handler_tests_test_get_balance() {
    let pubkey = "0x1234567890abcdef";
    let mut node = TransactionRpcService::new();
    node.set_balance(pubkey.as_bytes(), 1000);
    let result = get_balance(&node, pubkey);
    assert_eq!(result, 1000);
}

#[test]
fn test_get_balance_invalid_params() {
    let node = TransactionRpcService::new();
    let params = vec![RpcParam::Other, RpcParam::Text("extra".to_string())];
    let result = get_balance_request(&node, &params);
    assert_eq!(
        result,
        Err("Invalid parameters. Expected a single string parameter (account pubkey)".to_string())
    );
    let valid = vec![RpcParam::Text("k".to_string())];
    assert_eq!(get_balance_request(&node, &valid), Ok(0));
}

#[test]
fn get_balance_test_test_get_balance() {
    let mut node = TransactionRpcService::new();
    node.set_balance(b"some_pubkey", 1000);
    assert_eq!(get_balance(&node, "some_pubkey"), 1000);
}

#[test]
fn balance_of_unknown_account_is_zero() {
    let node = TransactionRpcService::new();
    assert_eq!(get_balance(&node, "nobody"), 0);
    assert_eq!(node.get_balance(b"nobody"), None);
}

#[test]
fn store_get_after_insert() {
    let mut t = MerklePatriciaTrie::new();
    t.insert(b"alpha", b"1");
    t.insert(b"beta", b"22");
    t.insert(b"alp", b"333");
    assert_eq!(t.get(b"alpha"), Some(b"1".to_vec()));
    assert_eq!(t.get(b"beta"), Some(b"22".to_vec()));
    assert_eq!(t.get(b"alp"), Some(b"333".to_vec()));
    t.insert(b"alpha", b"");
    assert_eq!(t.get(b"alpha"), Some(Vec::new()));
}

#[test]
fn store_never_inserted_is_absent() {
    let mut t = MerklePatriciaTrie::new();
    assert_eq!(t.get(b"k"), None);
    t.insert(b"k1", b"v");
    assert_eq!(t.get(b"k"), None);
    assert_eq!(t.get(b"k2"), None);
}

#[test]
fn store_delete_absent_is_noop() {
    let mut t = MerklePatriciaTrie::new();
    t.insert(b"a", b"1");
    let before = t.root_hash();
    t.delete(b"zz");
    assert_eq!(t.root_hash(), before);
    assert_eq!(t.get(b"a"), Some(b"1".to_vec()));
}

#[test]
fn empty_store_root_is_sha256_of_nothing() {
    let t = MerklePatriciaTrie::new();
    assert_eq!(
        hex::encode(t.root_hash()),
        "e3b0c44298fc1c149afbf4c8996fb92427ae41e4649b934ca495991b7852b855"
    );
}

#[test]
fn root_independent_of_insertion_order() {
    let mut first = MerklePatriciaTrie::new();
    first.insert(b"A", b"a");
    first.insert(b"B", b"b");
    first.insert(b"C", b"c");
    let mut second = MerklePatriciaTrie::new();
    second.insert(b"C", b"c");
    second.insert(b"A", b"a");
    second.insert(b"B", b"b");
    assert_eq!(first.root_hash(), second.root_hash());
    assert_eq!(first.root_hash().len(), 32);
    let mut third = MerklePatriciaTrie::new();
    third.insert(b"A", b"a");
    third.insert(b"B", b"b");
    assert_ne!(first.root_hash(), third.root_hash());
}

#[test]
fn proof_verifies_for_every_present_key() {
    let mut t = MerklePatriciaTrie::new();
    let keys: [&[u8]; 4] = [b"acct1", b"acct2", b"code", b"a"];
    for (i, k) in keys.iter().enumerate() {
        t.insert(k, &[i as u8; 3]);
    }
    let root = t.root_hash();
    for k in keys.iter() {
        let p = t.prove(k).unwrap();
        assert_eq!(p.key, k.to_vec());
        assert!(p.verify(&root));
    }
    assert!(matches!(t.prove(b"missing"), Err(LedgerError::NotFound)));
}

#[test]
fn tampered_proof_is_rejected() {
    let mut t = MerklePatriciaTrie::new();
    t.insert(b"k", b"v");
    t.insert(b"j", b"w");
    let root = t.root_hash();
    let mut p = t.prove(b"k").unwrap();
    p.value = b"other".to_vec();
    assert!(!p.verify(&root));
}

#[test]
fn deleted_key_proof_fails_against_new_root() {
    let mut t = MerklePatriciaTrie::new();
    t.insert(b"k", b"v");
    t.insert(b"other", b"x");
    let old_proof = t.prove(b"k").unwrap();
    assert!(old_proof.verify(&t.root_hash()));
    t.delete(b"k");
    assert_eq!(t.get(b"k"), None);
    assert!(!old_proof.verify(&t.root_hash()));
    let still = t.prove(b"other").unwrap();
    assert!(still.verify(&t.root_hash()));
}

#[test]
fn duplicate_signature_is_rejected_once_committed() {
    let mut node = TransactionRpcService::new();
    node.set_balance(b"A", 1000);
    assert!(node.submit_transaction(transfer("A", "B", 1, 7)).is_ok());
    let second = node.submit_transaction(transfer("A", "B", 2, 7));
    assert!(matches!(second, Err(LedgerError::DuplicateSignature)));
    let sigs = node.get_signatures_for_address(b"A", 100, None, None).unwrap();
    assert_eq!(sigs, vec![sig(7)]);
    assert_eq!(node.get_balance(b"B"), Some(1));
}

#[test]
fn duplicate_signature_in_pool_is_rejected() {
    let mut node = TransactionRpcService::new();
    assert!(node.enqueue_transaction(transfer("A", "B", 0, 9)).is_ok());
    assert!(matches!(
        node.enqueue_transaction(transfer("A", "C", 0, 9)),
        Err(LedgerError::DuplicateSignature)
    ));
    assert!(matches!(
        node.submit_transaction(transfer("A", "C", 0, 9)),
        Err(LedgerError::DuplicateSignature)
    ));
    assert_eq!(node.pool.transactions.len(), 1);
}

#[test]
fn pool_processing_commits_and_removes() {
    let mut node = TransactionRpcService::new();
    node.set_balance(b"A", 10);
    assert!(node.enqueue_transaction(transfer("A", "B", 4, 3)).is_ok());
    let receipt = node.process_pending(&sig(3)).unwrap();
    assert_eq!(receipt.compute_units_consumed, BASE_GAS);
    assert_eq!(node.pool.transactions.len(), 0);
    assert_eq!(node.get_balance(b"A"), Some(6));
    assert!(matches!(node.process_pending(&sig(3)), Err(LedgerError::NotFound)));
}

#[test]
fn pool_add_and_get() {
    let mut pool = TransactionPool::new();
    assert!(pool.add_transaction(transfer("A", "B", 1, 1)).is_ok());
    assert!(matches!(
        pool.add_transaction(transfer("A", "B", 2, 1)),
        Err(LedgerError::DuplicateSignature)
    ));
    assert_eq!(pool.get_transaction(&sig(1)).unwrap().amount, 1);
    assert!(pool.get_transaction(&sig(2)).is_none());
    assert_eq!(pool.remove_transaction(&sig(1)).unwrap().amount, 1);
    assert!(pool.get_transaction(&sig(1)).is_none());
}

#[test]
fn out_of_gas_leaves_root_unchanged() {
    let mut node = TransactionRpcService::new();
    node.set_balance(b"A", 5);
    let root = node.root_digest();
    let mut code = push(1);
    code.push(0x40);
    let tx = program("A", code, BASE_GAS + 50, 11);
    assert!(matches!(node.submit_transaction(tx), Err(LedgerError::OutOfGas)));
    assert_eq!(node.root_digest(), root);
    assert!(node.get_transaction(&sig(11)).is_none());
}

#[test]
fn gas_below_base_charge_is_out_of_gas() {
    let mut node = TransactionRpcService::new();
    let tx = program("A", Vec::new(), BASE_GAS - 1, 12);
    assert!(matches!(node.submit_transaction(tx), Err(LedgerError::OutOfGas)));
}

#[test]
fn signatures_newest_first_with_limit() {
    let mut node = TransactionRpcService::new();
    node.set_balance(b"addr", 100);
    for n in 1..=3 {
        assert!(node.submit_transaction(transfer("addr", "peer", 1, n)).is_ok());
    }
    let sigs = node.get_signatures_for_address(b"addr", 2, None, None).unwrap();
    assert_eq!(sigs, vec![sig(3), sig(2)]);
    let before = node
        .get_signatures_for_address(b"addr", 10, Some(sig(3)), None)
        .unwrap();
    assert_eq!(before, vec![sig(2), sig(1)]);
    let until = node
        .get_signatures_for_address(b"addr", 10, None, Some(sig(2)))
        .unwrap();
    assert_eq!(until, vec![sig(3), sig(2)]);
    let peer = node.get_signatures_for_address(b"peer", 10, None, None).unwrap();
    assert_eq!(peer.len(), 3);
    assert!(node
        .get_signatures_for_address(b"nobody", 10, None, None)
        .unwrap()
        .is_empty());
}

#[test]
fn unknown_cursor_is_invalid() {
    let node = TransactionRpcService::new();
    assert!(matches!(
        node.get_signatures_for_address(b"addr", 10, Some(sig(1)), None),
        Err(LedgerError::InvalidCursor)
    ));
    assert!(matches!(
        node.get_signatures_for_address(b"addr", 10, None, Some(sig(1))),
        Err(LedgerError::InvalidCursor)
    ));
}

#[test]
fn end_to_end_transfer() {
    let mut node = TransactionRpcService::new();
    node.set_balance(b"A", 1000);
    node.set_balance(b"B", 0);
    let receipt = node.submit_transaction(transfer("A", "B", 100, 42)).unwrap();
    assert_eq!(node.get_balance(b"A"), Some(900));
    assert_eq!(node.get_balance(b"B"), Some(100));
    let committed = node.get_transaction(&sig(42)).unwrap();
    assert_eq!(committed.amount, 100);
    assert_eq!(committed.sender, b"A".to_vec());
    assert!(receipt.compute_units_consumed > 0);
}

#[test]
fn insufficient_funds_changes_nothing() {
    let mut node = TransactionRpcService::new();
    node.set_balance(b"A", 10);
    let root = node.root_digest();
    assert!(matches!(
        node.submit_transaction(transfer("A", "B", 11, 1)),
        Err(LedgerError::InsufficientFunds)
    ));
    assert_eq!(node.root_digest(), root);
    assert_eq!(node.get_balance(b"A"), Some(10));
}

#[test]
fn malformed_and_badly_signed_transactions() {
    let mut node = TransactionRpcService::new();
    let empty_sender = Transaction::new(Vec::new(), b"B".to_vec(), 0, sig(1));
    assert!(matches!(empty_sender.validate(), Err(LedgerError::MalformedTransaction)));
    assert!(matches!(
        node.submit_transaction(empty_sender),
        Err(LedgerError::MalformedTransaction)
    ));
    let bad_hex = Transaction::new(b"A".to_vec(), b"B".to_vec(), 0, "zz".repeat(64));
    assert!(matches!(bad_hex.validate(), Err(LedgerError::InvalidSignature)));
    let short = Transaction::new(b"A".to_vec(), b"B".to_vec(), 0, "ab".to_string());
    assert!(matches!(short.validate(), Err(LedgerError::InvalidSignature)));
    let upper = Transaction::new(b"A".to_vec(), b"B".to_vec(), 0, "AB".repeat(64));
    assert!(upper.validate().is_ok());
}

#[test]
fn blocks_seal_with_state_root() {
    let mut node = TransactionRpcService::new();
    node.set_balance(b"A", 10);
    assert!(node.submit_transaction(transfer("A", "B", 1, 1)).is_ok());
    assert!(node.get_block(0).is_none());
    node.seal_block();
    let block = node.get_block(0).unwrap();
    assert_eq!(block.transactions.len(), 1);
    assert_eq!(block.state_root, node.root_digest());
    assert!(block.parent_root.is_empty());
    assert!(node.get_transaction(&sig(1)).is_some());
    node.seal_block();
    assert_eq!(node.get_block(1).unwrap().parent_root, block.state_root);
}

#[test]
fn account_proof_checks_against_root() {
    let mut node = TransactionRpcService::new();
    node.set_balance(b"A", 7);
    let proof = node.get_account_proof(b"A").unwrap();
    assert_eq!(proof.value, 7u64.to_be_bytes().to_vec());
    assert!(proof.verify(&node.root_digest()));
    assert!(matches!(node.get_account_proof(b"Z"), Err(LedgerError::NotFound)));
}

#[test]
fn chain_index_lookup() {
    let chain = Chain::new();
    assert!(chain.get_transaction(&sig(1)).is_none());
    let mut chain = Chain::new();
    chain.commit(transfer("A", "B", 3, 1));
    assert_eq!(chain.get_transaction(&sig(1)).unwrap().amount, 3);
    chain.append_block(&[1, 2, 3]);
    assert_eq!(chain.get_transaction(&sig(1)).unwrap().amount, 3);
    assert_eq!(chain.get_block(0).unwrap().state_root, vec![1, 2, 3]);
}

#[test]
fn vm_arithmetic_gas_is_exact() {
    let store = MerklePatriciaTrie::new();
    let mut code = push(7);
    code.extend(push(5));
    code.push(0x10);
    let e = VirtualMachine::execute_transaction(&code, 100, &store).ok().unwrap();
    assert_eq!(e.receipt.compute_units_consumed, 7);
    assert!(e.receipt.logs.is_empty());
}

#[test]
fn vm_error_kinds() {
    let store = MerklePatriciaTrie::new();
    let run = |code: &[u8], gas: u64| VirtualMachine::execute_transaction(code, gas, &store).err();
    assert_eq!(run(&[0xFF], 100), Some(LedgerError::InvalidInstruction));
    assert_eq!(run(&[0x02], 100), Some(LedgerError::InvalidInstruction));
    assert_eq!(run(&[0x03, 5], 100), Some(LedgerError::StackIndexOutOfRange));
    let mut swap = push(1);
    swap.extend([0x04, 0]);
    assert_eq!(run(&swap, 100), Some(LedgerError::StackIndexOutOfRange));
    let mut div = push(4);
    div.extend(push(0));
    div.push(0x13);
    assert_eq!(run(&div, 100), Some(LedgerError::DivisionByZero));
    let mut modulo = push(4);
    modulo.extend(push(0));
    modulo.push(0x14);
    assert_eq!(run(&modulo, 100), Some(LedgerError::DivisionByZero));
    assert_eq!(run(&push(1), 1), Some(LedgerError::OutOfGas));
    let mut call = push(9);
    call.push(0x41);
    assert_eq!(run(&call, 100), Some(LedgerError::NotFound));
    assert_eq!(run(&[0x30, 0, 9], 100), Some(LedgerError::InvalidInstruction));
}

#[test]
fn vm_jump_loop_runs_out_of_gas() {
    let store = MerklePatriciaTrie::new();
    let code = [0x30, 0, 0];
    assert!(matches!(
        VirtualMachine::execute_transaction(&code, 1000, &store),
        Err(LedgerError::OutOfGas)
    ));
}

#[test]
fn vm_return_stops_and_contracts_log() {
    let store = MerklePatriciaTrie::new();
    let mut code = push(3);
    code.push(0x40);
    code.extend(push(3));
    code.push(0x41);
    code.extend(push(3));
    code.push(0x42);
    code.push(0x32);
    code.push(0xFF);
    let e = VirtualMachine::execute_transaction(&code, 1000, &store).ok().unwrap();
    assert_eq!(
        e.receipt.logs,
        vec!["contract created", "contract called", "contract destroyed"]
    );
    assert_eq!(e.receipt.compute_units_consumed, 2 + 100 + 2 + 40 + 2 + 50 + 1);
    assert_eq!(store.root_hash(), MerklePatriciaTrie::new().root_hash());
}

#[test]
fn vm_dup_swap_and_logic() {
    let store = MerklePatriciaTrie::new();
    let mut code = push(6);
    code.extend(push(3));
    code.extend([0x03, 0]);
    code.extend([0x04, 0]);
    code.extend([0x20, 0x23, 0x21]);
    code.extend(push(1));
    code.push(0x22);
    let e = VirtualMachine::execute_transaction(&code, 1000, &store).ok().unwrap();
    assert_eq!(e.receipt.compute_units_consumed, 2 + 2 + 2 + 2 + 3 + 3 + 3 + 2 + 3);
    let mut short = push(1);
    short.push(0x22);
    assert_eq!(
        VirtualMachine::execute_transaction(&short, 1000, &store).err(),
        Some(LedgerError::InvalidInstruction)
    );
}

#[test]
fn decode_instructions() {
    assert_eq!(decode_instruction(&push(258), 0), Some((Instruction::Push(258), 9)));
    assert_eq!(decode_instruction(&[0x31, 1, 2], 0), Some((Instruction::JumpI(258), 3)));
    assert_eq!(decode_instruction(&[0x02, 0x03, 4], 1), Some((Instruction::Dup(4), 2)));
    assert_eq!(decode_instruction(&[0x01, 1], 0), None);
    assert_eq!(decode_instruction(&[0x32], 1), None);
}

#[test]
fn simulation_never_commits() {
    let mut node = TransactionRpcService::new();
    node.set_balance(b"A", 1);
    let root = node.root_digest();
    let mut code = push(5);
    code.push(0x40);
    let receipt = node.simulate_transaction(&code, 500).ok().unwrap();
    assert_eq!(receipt.logs, vec!["contract created"]);
    assert_eq!(node.root_digest(), root);
    assert_eq!(
        node.simulate_transaction(&[0x02], 500).err(),
        Some(SimulatedError { error: LedgerError::InvalidInstruction })
    );
}

#[test]
fn simulation_from_hex() {
    let node = TransactionRpcService::new();
    let receipt = node.simulate_transaction_hex("01000000000000000702", 100).ok().unwrap();
    assert_eq!(receipt.compute_units_consumed, 3);
    assert_eq!(
        node.simulate_transaction_hex("0123456789abcdef", 100).err(),
        Some(SimulatedError { error: LedgerError::InvalidInstruction })
    );
    assert_eq!(
        node.simulate_transaction_hex("0g", 100).err(),
        Some(SimulatedError { error: LedgerError::MalformedTransaction })
    );
    assert_eq!(
        node.simulate_transaction_hex("123", 100).err(),
        Some(SimulatedError { error: LedgerError::MalformedTransaction })
    );
}

#[test]
fn self_transfer_keeps_balance() {
    let mut node = TransactionRpcService::new();
    node.set_balance(b"A", 50);
    assert!(node.submit_transaction(transfer("A", "A", 20, 1)).is_ok());
    assert_eq!(node.get_balance(b"A"), Some(50));
}

#[test]
fn transaction_bytes_round_trip() {
    let t = Transaction {
        signature: "sig-é".to_string(),
        sender: b"A".to_vec(),
        recipient: Some(b"BB".to_vec()),
        amount: 258,
        payload: vec![0x02, 0x32],
        gas_limit: 77,
    };
    let bytes = t.to_bytes();
    let mut expected = 6u64.to_be_bytes().to_vec();
    expected.extend("sig-é".as_bytes());
    expected.extend(1u64.to_be_bytes());
    expected.extend(b"A");
    expected.push(1);
    expected.extend(2u64.to_be_bytes());
    expected.extend(b"BB");
    expected.extend(258u64.to_be_bytes());
    expected.extend(2u64.to_be_bytes());
    expected.extend([0x02, 0x32]);
    expected.extend(77u64.to_be_bytes());
    assert_eq!(bytes, expected);
    let back = Transaction::from_bytes(&bytes).ok().unwrap();
    assert_eq!(back.signature, t.signature);
    assert_eq!(back.sender, t.sender);
    assert_eq!(back.recipient, t.recipient);
    assert_eq!(back.amount, t.amount);
    assert_eq!(back.payload, t.payload);
    assert_eq!(back.gas_limit, t.gas_limit);
    let none = program("A", Vec::new(), 5, 1);
    let back = Transaction::from_bytes(&none.to_bytes()).ok().unwrap();
    assert_eq!(back.recipient, None);
}

#[test]
fn malformed_bytes_are_rejected() {
    let t = transfer("A", "B", 1, 1);
    let mut bytes = t.to_bytes();
    bytes.push(0);
    assert!(matches!(Transaction::from_bytes(&bytes), Err(LedgerError::MalformedTransaction)));
    bytes.truncate(bytes.len() - 2);
    assert!(matches!(Transaction::from_bytes(&bytes), Err(LedgerError::MalformedTransaction)));
    assert!(matches!(Transaction::from_bytes(&[]), Err(LedgerError::MalformedTransaction)));
    let mut bad_utf8 = 1u64.to_be_bytes().to_vec();
    bad_utf8.push(0xFF);
    bad_utf8.extend(transfer("A", "B", 1, 1).to_bytes()[8 + 128..].iter());
    assert!(matches!(Transaction::from_bytes(&bad_utf8), Err(LedgerError::MalformedTransaction)));
}

#[test]
fn send_transaction_from_bytes() {
    let mut node = TransactionRpcService::new();
    node.set_balance(b"A", 1000);
    let bytes = transfer("A", "B", 100, 5).to_bytes();
    assert_eq!(node.send_transaction(&bytes), Ok(sig(5)));
    assert_eq!(node.get_balance(b"B"), Some(100));
    assert_eq!(node.send_transaction(&bytes), Err(LedgerError::DuplicateSignature));
    assert_eq!(node.send_transaction(&bytes[1..]), Err(LedgerError::MalformedTransaction));
}
