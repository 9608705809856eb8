//! Validates, executes and commits transactions against the ledger state.
//!
//! A transaction is checked for shape and signature, its program runs on a
//! copy of the state, its transfer is applied to that copy, and only then
//! are the copy, the chain and the index updated together. Any failure
//! leaves state, chain and pool exactly as they were.
use vstd::prelude::*;

use crate::bytes::{be_to_u64, be_u64_at, lemma_be_round_trip, u64_be, u64_to_be};
use crate::chain::{
    holds_signature, Block, Chain, Transaction, TransactionPool, TxView, cursor_hi, cursor_known,
    cursor_lo, matching_positions, opt_view,
};
use crate::codec::decode_tx;
use crate::encoding::{decode_hex, hex_bytes, hex_valid};
use vstd::string::{StringExecFns, StringSliceAdditionalSpecFns};
use crate::error::LedgerError;
use crate::trie::{MerklePatriciaTrie, StateProof};
use crate::vm::{initial_machine, run, Receipt, VirtualMachine};

verus! {

/// Gas every transaction is charged before its program runs.
pub const BASE_GAS: u64 = 10;

/// Length in bytes of a transaction signature.
pub const SIGNATURE_BYTES: usize = 64;

/// Sender present, recipient non-empty when given, and no amount on a
/// transaction without recipient.
pub open spec fn well_formed(t: TxView) -> bool {
    &&& t.sender.len() > 0
    &&& match t.recipient {
        Some(r) => r.len() > 0,
        None => t.amount == 0,
    }
}

/// The signature is hex text of a 64-byte signature.
pub open spec fn signature_valid(t: TxView) -> bool {
    hex_valid(t.signature) && hex_bytes(t.signature).len() == SIGNATURE_BYTES
}

pub open spec fn validation(t: TxView) -> Result<(), LedgerError> {
    if !well_formed(t) {
        Err(LedgerError::MalformedTransaction)
    } else if !signature_valid(t) {
        Err(LedgerError::InvalidSignature)
    } else {
        Ok(())
    }
}

/// The balance recorded under `account`: eight big-endian bytes.
pub open spec fn balance_in(m: Map<Seq<u8>, Seq<u8>>, account: Seq<u8>) -> Option<u64> {
    if m.contains_key(account) && m[account].len() == 8 {
        Some(be_u64_at(m[account], 0))
    } else {
        None
    }
}

/// Spendable funds: the recorded balance, or nothing.
pub open spec fn funds(m: Map<Seq<u8>, Seq<u8>>, account: Seq<u8>) -> u64 {
    match balance_in(m, account) {
        Some(b) => b,
        None => 0,
    }
}

/// The state after moving `t.amount` from sender to recipient.
pub open spec fn transfer(m: Map<Seq<u8>, Seq<u8>>, t: TxView) -> Result<
    Map<Seq<u8>, Seq<u8>>,
    LedgerError,
> {
    match t.recipient {
        None => Ok(m),
        Some(to) => {
            let from_funds = funds(m, t.sender);
            if from_funds < t.amount {
                Err(LedgerError::InsufficientFunds)
            } else {
                let debited = m.insert(t.sender, u64_be((from_funds - t.amount) as u64));
                let to_funds = funds(debited, to);
                if to_funds + t.amount > u64::MAX {
                    Err(LedgerError::MalformedTransaction)
                } else {
                    Ok(debited.insert(to, u64_be((to_funds + t.amount) as u64)))
                }
            }
        },
    }
}

/// What the ledger does with a transaction whose signature is new: the
/// resulting state, the gas consumed and the log lines, or the reason it
/// is rejected.
pub open spec fn outcome(state: Map<Seq<u8>, Seq<u8>>, t: TxView) -> Result<
    (Map<Seq<u8>, Seq<u8>>, int, Seq<Seq<char>>),
    LedgerError,
> {
    match validation(t) {
        Err(e) => Err(e),
        Ok(_) => if t.gas_limit < BASE_GAS {
            Err(LedgerError::OutOfGas)
        } else {
            match run(t.payload, t.gas_limit - BASE_GAS, initial_machine(state)) {
                Err(e) => Err(e),
                Ok(m) => match transfer(m.store, t) {
                    Err(e) => Err(e),
                    Ok(after) => Ok((after, BASE_GAS + m.gas_used, m.logs)),
                },
            }
        },
    }
}

/// Reads the funds of `account`.
fn read_funds(state: &MerklePatriciaTrie, account: &[u8]) -> (r: u64)
    requires
        state.wf(),
    ensures
        r == funds(state@, account@),
{
    match state.get(account) {
        Some(v) => if v.len() == 8 {
            be_to_u64(&v, 0)
        } else {
            0
        },
        None => 0,
    }
}

/// Checks shape and signature of a transaction.
pub fn validate_transaction(tx: &Transaction) -> (r: Result<(), LedgerError>)
    ensures
        r == validation(tx@),
{
    if tx.sender.len() == 0 {
        return Err(LedgerError::MalformedTransaction);
    }
    match &tx.recipient {
        Some(to) => if to.len() == 0 {
            return Err(LedgerError::MalformedTransaction);
        },
        None => if tx.amount != 0 {
            return Err(LedgerError::MalformedTransaction);
        },
    }
    match decode_hex(tx.signature.as_str()) {
        Some(bytes) => if bytes.len() == SIGNATURE_BYTES {
            Ok(())
        } else {
            Err(LedgerError::InvalidSignature)
        },
        None => Err(LedgerError::InvalidSignature),
    }
}

impl Transaction {
    /// Checks shape and signature.
    pub fn validate(&self) -> (r: Result<(), LedgerError>)
        ensures
            r == validation(self@),
    {
        validate_transaction(self)
    }
}

/// Applies the transfer of `tx` to `state`.
fn apply_transfer(state: &mut MerklePatriciaTrie, tx: &Transaction) -> (r: Result<(), LedgerError>)
    requires
        old(state).wf(),
    ensures
        final(state).wf(),
        match transfer(old(state)@, tx@) {
            Ok(m) => r is Ok && final(state)@ == m,
            Err(e) => r == Err::<(), LedgerError>(e),
        },
{
    match &tx.recipient {
        None => Ok(()),
        Some(to) => {
            let from_funds = read_funds(state, &tx.sender);
            if from_funds < tx.amount {
                return Err(LedgerError::InsufficientFunds);
            }
            let debited = u64_to_be(from_funds - tx.amount);
            state.insert(&tx.sender, &debited);
            let to_funds = read_funds(state, to);
            if to_funds > u64::MAX - tx.amount {
                return Err(LedgerError::MalformedTransaction);
            }
            let credited = u64_to_be(to_funds + tx.amount);
            state.insert(to, &credited);
            Ok(())
        },
    }
}

/// A failed dry run; nothing was or would have been committed.
#[derive(Debug, Clone, Copy, PartialEq, Eq, Structural)]
pub struct SimulatedError {
    pub error: LedgerError,
}

/// The ledger: authenticated state, pending pool and chain.
pub struct TransactionRpcService {
    pub state: MerklePatriciaTrie,
    pub pool: TransactionPool,
    pub chain: Chain,
}

impl TransactionRpcService {
    pub open spec fn wf(&self) -> bool {
        self.state.wf() && self.pool.wf() && self.chain.wf()
    }

    /// Whether `sig` is pending or committed.
    pub open spec fn signature_known(&self, sig: Seq<char>) -> bool {
        holds_signature(self.pool.pending(), sig) || holds_signature(self.chain.committed(), sig)
    }

    /// A ledger with empty state, pool and chain.
    pub fn new() -> (r: Self)
        ensures
            r.wf(),
            r.state@ == Map::<Seq<u8>, Seq<u8>>::empty(),
            r.pool.pending().len() == 0,
            r.chain.committed().len() == 0,
            r.chain.blocks@.len() == 0,
    {
        TransactionRpcService {
            state: MerklePatriciaTrie::new(),
            pool: TransactionPool::new(),
            chain: Chain::new(),
        }
    }

    /// Records `balance` for `account`, as at genesis.
    pub fn set_balance(&mut self, account: &[u8], balance: u64)
        requires
            old(self).wf(),
        ensures
            final(self).wf(),
            final(self).state@ == old(self).state@.insert(account@, u64_be(balance)),
            balance_in(final(self).state@, account@) == Some(balance),
            final(self).pool == old(self).pool,
            final(self).chain == old(self).chain,
    {
        let bytes = u64_to_be(balance);
        self.state.insert(account, &bytes);
        proof {
            lemma_be_round_trip(balance);
        }
    }

    /// The balance recorded for `account`.
    pub fn get_balance(&self, account: &[u8]) -> (r: Option<u64>)
        requires
            self.wf(),
        ensures
            r == balance_in(self.state@, account@),
    {
        match self.state.get(account) {
            Some(v) => if v.len() == 8 {
                Some(be_to_u64(&v, 0))
            } else {
                None
            },
            None => None,
        }
    }

    /// Validates, runs and commits a transaction whose signature is new.
    fn execute_and_commit(&mut self, tx: Transaction) -> (r: Result<Receipt, LedgerError>)
        requires
            old(self).wf(),
            !holds_signature(old(self).chain.committed(), tx@.signature),
        ensures
            final(self).wf(),
            final(self).pool == old(self).pool,
            match outcome(old(self).state@, tx@) {
                Ok((after, gas, logs)) => r matches Ok(receipt) && final(self).state@ == after
                    && receipt.compute_units_consumed == gas && receipt.log_lines() == logs
                    && final(self).chain.committed() == old(self).chain.committed().push(tx@)
                    && final(self).chain.blocks@ == old(self).chain.blocks@,
                Err(e) => r matches Err(x) && x == e && final(self).state == old(self).state
                    && final(self).chain == old(self).chain,
            },
    {
        match validate_transaction(&tx) {
            Err(e) => {
                return Err(e);
            },
            Ok(()) => {},
        }
        if tx.gas_limit < BASE_GAS {
            return Err(LedgerError::OutOfGas);
        }
        let execution = match VirtualMachine::execute_transaction(
            &tx.payload,
            tx.gas_limit - BASE_GAS,
            &self.state,
        ) {
            Err(e) => {
                return Err(e);
            },
            Ok(x) => x,
        };
        let mut staged = execution.state;
        match apply_transfer(&mut staged, &tx) {
            Err(e) => {
                return Err(e);
            },
            Ok(()) => {},
        }
        let receipt = Receipt {
            logs: execution.receipt.logs,
            compute_units_consumed: BASE_GAS + execution.receipt.compute_units_consumed,
        };
        self.state = staged;
        self.chain.commit(tx);
        Ok(receipt)
    }

    /// Submits a transaction: a signature that is already pending or
    /// committed is a `DuplicateSignature` and changes nothing; otherwise
    /// the transaction is validated, run and, on success, committed.
    pub fn submit_transaction(&mut self, tx: Transaction) -> (r: Result<Receipt, LedgerError>)
        requires
            old(self).wf(),
        ensures
            final(self).wf(),
            final(self).pool == old(self).pool,
            old(self).signature_known(tx@.signature) ==> (r matches Err(x) && x
                == LedgerError::DuplicateSignature && final(self).state == old(self).state
                && final(self).chain == old(self).chain),
            !old(self).signature_known(tx@.signature) ==> match outcome(old(self).state@, tx@) {
                Ok((after, gas, logs)) => r matches Ok(receipt) && final(self).state@ == after
                    && receipt.compute_units_consumed == gas && receipt.log_lines() == logs
                    && final(self).chain.committed() == old(self).chain.committed().push(tx@)
                    && final(self).chain.blocks@ == old(self).chain.blocks@,
                Err(e) => r matches Err(x) && x == e && final(self).state == old(self).state
                    && final(self).chain == old(self).chain,
            },
    {
        if self.pool.get_transaction(&tx.signature).is_some() || self.chain.contains_signature(
            &tx.signature,
        ) {
            return Err(LedgerError::DuplicateSignature);
        }
        self.execute_and_commit(tx)
    }

    /// Decodes a transaction from its binary form and submits it, returning
    /// its signature once committed. Bytes that are no binary form are a
    /// `MalformedTransaction` and change nothing.
    pub fn send_transaction(&mut self, signed_tx_bytes: &[u8]) -> (r: Result<String, LedgerError>)
        requires
            old(self).wf(),
        ensures
            final(self).wf(),
            final(self).pool == old(self).pool,
            decode_tx(signed_tx_bytes@) is None ==> (r matches Err(x) && x
                == LedgerError::MalformedTransaction && final(self).state == old(self).state
                && final(self).chain == old(self).chain),
            decode_tx(signed_tx_bytes@) matches Some(t) ==> {
                &&& old(self).signature_known(t.signature) ==> (r matches Err(x) && x
                    == LedgerError::DuplicateSignature && final(self).state == old(self).state
                    && final(self).chain == old(self).chain)
                &&& !old(self).signature_known(t.signature) ==> match outcome(old(self).state@, t) {
                    Ok((after, _, _)) => r matches Ok(sig) && sig@ == t.signature
                        && final(self).state@ == after && final(self).chain.committed()
                        == old(self).chain.committed().push(t),
                    Err(e) => r matches Err(x) && x == e && final(self).state == old(self).state
                        && final(self).chain == old(self).chain,
                }
            },
    {
        let tx = match Transaction::from_bytes(signed_tx_bytes) {
            Ok(t) => t,
            Err(e) => {
                return Err(e);
            },
        };
        let signature = tx.signature.clone();
        match self.submit_transaction(tx) {
            Ok(_) => Ok(signature),
            Err(e) => Err(e),
        }
    }

    /// Stages a transaction in the pool; a signature that is already pending
    /// or committed is a `DuplicateSignature` and changes nothing.
    pub fn enqueue_transaction(&mut self, tx: Transaction) -> (r: Result<(), LedgerError>)
        requires
            old(self).wf(),
        ensures
            final(self).wf(),
            final(self).state == old(self).state,
            final(self).chain == old(self).chain,
            old(self).signature_known(tx@.signature) ==> r == Err::<(), LedgerError>(
                LedgerError::DuplicateSignature,
            ) && final(self).pool == old(self).pool,
            !old(self).signature_known(tx@.signature) ==> r is Ok && final(self).pool.pending()
                == old(self).pool.pending().push(tx@),
    {
        if self.chain.contains_signature(&tx.signature) {
            return Err(LedgerError::DuplicateSignature);
        }
        if self.pool.get_transaction(&tx.signature).is_some() {
            return Err(LedgerError::DuplicateSignature);
        }
        self.pool.add_transaction(tx)
    }

    /// Takes the pending transaction with signature `signature` out of the
    /// pool and runs it: committed on success, dropped with the reason on
    /// failure. `NotFound` where nothing with that signature is pending.
    pub fn process_pending(&mut self, signature: &String) -> (r: Result<Receipt, LedgerError>)
        requires
            old(self).wf(),
        ensures
            final(self).wf(),
            !holds_signature(old(self).pool.pending(), signature@) ==> (r matches Err(x) && x
                == LedgerError::NotFound && final(self).state == old(self).state
                && final(self).chain == old(self).chain && final(self).pool.pending()
                == old(self).pool.pending()),
            holds_signature(old(self).pool.pending(), signature@) ==> exists|i: int|
                0 <= i < old(self).pool.pending().len() && #[trigger] old(self).pool.pending()[i].signature
                    == signature@ && final(self).pool.pending() == old(self).pool.pending().remove(
                    i,
                ) && (holds_signature(old(self).chain.committed(), signature@) ==> (r matches Err(
                    x,
                ) && x == LedgerError::DuplicateSignature && final(self).state == old(self).state
                    && final(self).chain == old(self).chain)) && (!holds_signature(
                    old(self).chain.committed(),
                    signature@,
                ) ==> match outcome(old(self).state@, old(self).pool.pending()[i]) {
                    Ok((after, gas, logs)) => r matches Ok(receipt) && final(self).state@ == after
                        && receipt.compute_units_consumed == gas && receipt.log_lines() == logs
                        && final(self).chain.committed() == old(self).chain.committed().push(
                        old(self).pool.pending()[i],
                    ),
                    Err(e) => r matches Err(x) && x == e && final(self).state == old(self).state
                        && final(self).chain == old(self).chain,
                }),
    {
        let tx = match self.pool.remove_transaction(signature) {
            None => {
                return Err(LedgerError::NotFound);
            },
            Some(t) => t,
        };
        if self.chain.contains_signature(&tx.signature) {
            return Err(LedgerError::DuplicateSignature);
        }
        self.execute_and_commit(tx)
    }

    /// Seals the open block with the current state root.
    pub fn seal_block(&mut self)
        requires
            old(self).wf(),
        ensures
            final(self).wf(),
            final(self).state == old(self).state,
            final(self).pool == old(self).pool,
            final(self).chain.committed() == old(self).chain.committed(),
            final(self).chain.blocks@.len() == old(self).chain.blocks@.len() + 1,
            final(self).chain.blocks@.last().state_root@ == old(self).state.root(),
    {
        let root = self.state.root_hash();
        self.chain.append_block(&root);
    }

    /// The committed transaction with signature `signature`, if any.
    pub fn get_transaction(&self, signature: &String) -> (r: Option<Transaction>)
        requires
            self.wf(),
        ensures
            match r {
                Some(t) => self.chain.committed().contains(t@) && t@.signature == signature@,
                None => !holds_signature(self.chain.committed(), signature@),
            },
    {
        self.chain.get_transaction(signature)
    }

    /// Committed signatures involving `address`, newest first.
    pub fn get_signatures_for_address(
        &self,
        address: &[u8],
        limit: usize,
        before: Option<String>,
        until: Option<String>,
    ) -> (r: Result<Vec<String>, LedgerError>)
        requires
            self.wf(),
        ensures
            r is Err <==> !cursor_known(self.chain.committed(), opt_view(before)) || !cursor_known(
                self.chain.committed(),
                opt_view(until),
            ),
            r is Err ==> r == Err::<Vec<String>, LedgerError>(LedgerError::InvalidCursor),
            r matches Ok(v) ==> {
                let c = self.chain.committed();
                let ps = matching_positions(
                    c,
                    address@,
                    cursor_hi(c, opt_view(before)),
                    cursor_lo(c, opt_view(until)),
                    limit as nat,
                );
                &&& v@.len() == ps.len()
                &&& forall|i: int| 0 <= i < ps.len() ==> (#[trigger] v@[i])@ == c[ps[i]].signature
            },
    {
        self.chain.get_signatures_for_address(address, limit, before, until)
    }

    /// The sealed block at `position`, if any.
    pub fn get_block(&self, position: usize) -> (r: Option<Block>)
        ensures
            match r {
                Some(b) => position < self.chain.blocks@.len() && b.txs()
                    == self.chain.blocks@[position as int].txs() && b.state_root@
                    == self.chain.blocks@[position as int].state_root@,
                None => position >= self.chain.blocks@.len(),
            },
    {
        self.chain.get_block(position)
    }

    /// The current root digest of the state.
    pub fn root_digest(&self) -> (r: Vec<u8>)
        ensures
            r@ == self.state.root(),
    {
        self.state.root_hash()
    }

    /// A proof that `account` is stored, checkable against the current root.
    pub fn get_account_proof(&self, account: &[u8]) -> (r: Result<StateProof, LedgerError>)
        requires
            self.wf(),
        ensures
            r is Err <==> !self.state@.contains_key(account@),
            r is Err ==> r == Err::<StateProof, LedgerError>(LedgerError::NotFound),
            r matches Ok(p) ==> p.key@ == account@ && p.value@ == self.state@[account@]
                && p.nodes() == self.state.leaves(),
    {
        self.state.prove(account)
    }

    /// Runs `bytecode` as a transaction would, and never commits.
    pub fn simulate_transaction(&self, bytecode: &[u8], gas_limit: u64) -> (r: Result<
        Receipt,
        SimulatedError,
    >)
        requires
            self.wf(),
        ensures
            r is Err <==> run(bytecode@, gas_limit as int, initial_machine(self.state@)) is Err,
            r matches Err(x) ==> run(bytecode@, gas_limit as int, initial_machine(self.state@))
                == Err::<crate::vm::MachineState, LedgerError>(x.error),
            r matches Ok(receipt) ==> run(
                bytecode@,
                gas_limit as int,
                initial_machine(self.state@),
            ) matches Ok(m) && receipt.log_lines() == m.logs && receipt.compute_units_consumed
                == m.gas_used,
    {
        match VirtualMachine::execute_transaction(bytecode, gas_limit, &self.state) {
            Ok(e) => Ok(e.receipt),
            Err(error) => Err(SimulatedError { error }),
        }
    }

    /// Runs hex-written bytecode as `simulate_transaction` does; text that
    /// is not an even number of hex digits is a `MalformedTransaction`.
    pub fn simulate_transaction_hex(&self, bytecode_hex: &str, gas_limit: u64) -> (r: Result<
        Receipt,
        SimulatedError,
    >)
        requires
            self.wf(),
        ensures
            !hex_valid(bytecode_hex@) ==> (r matches Err(x) && x.error
                == LedgerError::MalformedTransaction),
            hex_valid(bytecode_hex@) ==> {
                let code = hex_bytes(bytecode_hex@);
                &&& r is Err <==> run(code, gas_limit as int, initial_machine(self.state@)) is Err
                &&& r matches Err(x) ==> run(code, gas_limit as int, initial_machine(self.state@))
                    == Err::<crate::vm::MachineState, LedgerError>(x.error)
                &&& r matches Ok(receipt) ==> run(
                    code,
                    gas_limit as int,
                    initial_machine(self.state@),
                ) matches Ok(m) && receipt.log_lines() == m.logs && receipt.compute_units_consumed
                    == m.gas_used
            },
    {
        match decode_hex(bytecode_hex) {
            None => Err(SimulatedError { error: LedgerError::MalformedTransaction }),
            Some(code) => self.simulate_transaction(&code, gas_limit),
        }
    }
}

/// The funds recorded for the account named by `pubkey`; an account with
/// no balance has none.
pub fn get_balance(service: &TransactionRpcService, pubkey: &str) -> (r: u64)
    requires
        service.wf(),
    ensures
        r == funds(service.state@, pubkey.spec_bytes()),
{
    match service.get_balance(pubkey.as_bytes()) {
        Some(b) => b,
        None => 0,
    }
}

/// A positional request parameter: text, or a value of any other kind.
pub enum RpcParam {
    Text(String),
    Other,
}

pub open spec fn invalid_balance_params() -> Seq<char> {
    "Invalid parameters. Expected a single string parameter (account pubkey)"@
}

/// A balance request: exactly one text parameter, the account pubkey, whose
/// funds are returned; any other parameter list is refused with a message.
pub fn get_balance_request(service: &TransactionRpcService, params: &Vec<RpcParam>) -> (r: Result<
    u64,
    String,
>)
    requires
        service.wf(),
    ensures
        params@.len() == 1 && params@[0] is Text ==> r == Ok::<u64, String>(
            funds(service.state@, vstd::utf8::encode_utf8(params@[0]->Text_0@)),
        ),
        !(params@.len() == 1 && params@[0] is Text) ==> (r matches Err(m) && m@
            == invalid_balance_params()),
{
    if params.len() == 1 {
        if let RpcParam::Text(pubkey) = &params[0] {
            return Ok(get_balance(service, pubkey.as_str()));
        }
    }
    Err(String::from_str("Invalid parameters. Expected a single string parameter (account pubkey)"))
}

/// A signature can be committed once: once it is, a second submission with
/// it is refused, and the index holds exactly one entry for it.
pub proof fn law_signature_committed_once(service: TransactionRpcService, sig: Seq<char>)
    requires
        service.wf(),
        holds_signature(service.chain.committed(), sig),
    ensures
        service.signature_known(sig),
        forall|i: int, j: int|
            0 <= i < service.chain.committed().len() && 0 <= j < service.chain.committed().len()
                && #[trigger] service.chain.committed()[i].signature == sig
                && #[trigger] service.chain.committed()[j].signature == sig ==> i == j,
{
}

/// A well-formed, signed transaction whose program runs out of gas is
/// rejected with `OutOfGas`; `submit_transaction` then leaves the state, and
/// so its root digest, as they were.
pub proof fn law_out_of_gas_rejected(state: Map<Seq<u8>, Seq<u8>>, t: TxView)
    requires
        validation(t) is Ok,
        t.gas_limit >= BASE_GAS,
        run(t.payload, t.gas_limit - BASE_GAS, initial_machine(state)) == Err::<
            crate::vm::MachineState,
            LedgerError,
        >(LedgerError::OutOfGas),
    ensures
        outcome(state, t) == Err::<(Map<Seq<u8>, Seq<u8>>, int, Seq<Seq<char>>), LedgerError>(
            LedgerError::OutOfGas,
        ),
{
}

/// A transaction with less gas than the base charge is rejected with
/// `OutOfGas` once it is well formed and signed.
pub proof fn law_base_gas_required(state: Map<Seq<u8>, Seq<u8>>, t: TxView)
    requires
        validation(t) is Ok,
        t.gas_limit < BASE_GAS,
    ensures
        outcome(state, t) == Err::<(Map<Seq<u8>, Seq<u8>>, int, Seq<Seq<char>>), LedgerError>(
            LedgerError::OutOfGas,
        ),
{
}

} // verus!
