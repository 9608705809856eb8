//! Gas-metered stack machine.
//!
//! The machine reads a byte-coded instruction stream. Every instruction is
//! charged its fixed gas cost before its effect; execution stops at `Return`
//! or at the end of the stream, and fails as soon as a charge would exceed
//! the gas limit. The machine works on its own copy of the state, so a failed
//! run leaves the caller's state as it was.
use vstd::prelude::*;
use vstd::string::StringExecFns;

use crate::bytes::{be_to_u64, be_u64_at, u64_be, u64_to_be};
use crate::error::LedgerError;
use crate::trie::MerklePatriciaTrie;

verus! {

/// Most values the operand stack may hold.
pub const MAX_STACK: usize = 1024;

#[derive(Debug, Clone, Copy, PartialEq, Eq, Structural)]
pub enum Instruction {
    Push(u64),
    Pop,
    Dup(usize),
    Swap(usize),
    Add,
    Sub,
    Mul,
    Div,
    Mod,
    And,
    Or,
    Xor,
    Not,
    Jump(usize),
    JumpI(usize),
    Return,
    CreateContract,
    CallContract,
    DestroyContract,
}

/// Fixed gas cost of each instruction.
pub open spec fn gas_cost_of(ins: Instruction) -> u64 {
    match ins {
        Instruction::Push(_) => 2,
        Instruction::Pop => 1,
        Instruction::Dup(_) => 2,
        Instruction::Swap(_) => 2,
        Instruction::Add => 3,
        Instruction::Sub => 3,
        Instruction::Mul => 5,
        Instruction::Div => 5,
        Instruction::Mod => 5,
        Instruction::And => 3,
        Instruction::Or => 3,
        Instruction::Xor => 3,
        Instruction::Not => 3,
        Instruction::Jump(_) => 8,
        Instruction::JumpI(_) => 10,
        Instruction::Return => 1,
        Instruction::CreateContract => 100,
        Instruction::CallContract => 40,
        Instruction::DestroyContract => 50,
    }
}

pub fn gas_cost(ins: Instruction) -> (r: u64)
    ensures
        r == gas_cost_of(ins),
        r >= 1,
{
    match ins {
        Instruction::Push(_) => 2,
        Instruction::Pop => 1,
        Instruction::Dup(_) => 2,
        Instruction::Swap(_) => 2,
        Instruction::Add => 3,
        Instruction::Sub => 3,
        Instruction::Mul => 5,
        Instruction::Div => 5,
        Instruction::Mod => 5,
        Instruction::And => 3,
        Instruction::Or => 3,
        Instruction::Xor => 3,
        Instruction::Not => 3,
        Instruction::Jump(_) => 8,
        Instruction::JumpI(_) => 10,
        Instruction::Return => 1,
        Instruction::CreateContract => 100,
        Instruction::CallContract => 40,
        Instruction::DestroyContract => 50,
    }
}

/// A two-byte big-endian jump target at `at`.
pub open spec fn target_at(code: Seq<u8>, at: int) -> usize {
    ((code[at] as int) * 256 + (code[at + 1] as int)) as usize
}

/// The instruction that starts at `pc` and its length in bytes; `None` for
/// an unknown opcode or a truncated operand.
pub open spec fn decode_at(code: Seq<u8>, pc: int) -> Option<(Instruction, int)> {
    if pc < 0 || pc >= code.len() {
        None
    } else {
        let op = code[pc];
        let room = code.len() - pc;
        if op == 0x01 {
            if room >= 9 {
                Some((Instruction::Push(be_u64_at(code, pc + 1)), 9))
            } else {
                None
            }
        } else if op == 0x02 {
            Some((Instruction::Pop, 1))
        } else if op == 0x03 || op == 0x04 {
            if room >= 2 {
                let i = code[pc + 1] as usize;
                Some((if op == 0x03 { Instruction::Dup(i) } else { Instruction::Swap(i) }, 2))
            } else {
                None
            }
        } else if op == 0x10 {
            Some((Instruction::Add, 1))
        } else if op == 0x11 {
            Some((Instruction::Sub, 1))
        } else if op == 0x12 {
            Some((Instruction::Mul, 1))
        } else if op == 0x13 {
            Some((Instruction::Div, 1))
        } else if op == 0x14 {
            Some((Instruction::Mod, 1))
        } else if op == 0x20 {
            Some((Instruction::And, 1))
        } else if op == 0x21 {
            Some((Instruction::Or, 1))
        } else if op == 0x22 {
            Some((Instruction::Xor, 1))
        } else if op == 0x23 {
            Some((Instruction::Not, 1))
        } else if op == 0x30 || op == 0x31 {
            if room >= 3 {
                let t = target_at(code, pc + 1);
                Some((if op == 0x30 { Instruction::Jump(t) } else { Instruction::JumpI(t) }, 3))
            } else {
                None
            }
        } else if op == 0x32 {
            Some((Instruction::Return, 1))
        } else if op == 0x40 {
            Some((Instruction::CreateContract, 1))
        } else if op == 0x41 {
            Some((Instruction::CallContract, 1))
        } else if op == 0x42 {
            Some((Instruction::DestroyContract, 1))
        } else {
            None
        }
    }
}

/// Decodes the instruction that starts at `pc`.
pub fn decode_instruction(bytecode: &[u8], pc: usize) -> (r: Option<(Instruction, usize)>)
    ensures
        match decode_at(bytecode@, pc as int) {
            Some((ins, size)) => r == Some((ins, size as usize)),
            None => r is None,
        },
{
    if pc >= bytecode.len() {
        return None;
    }
    let op = bytecode[pc];
    let room = bytecode.len() - pc;
    if op == 0x01 {
        if room >= 9 {
            Some((Instruction::Push(be_to_u64(bytecode, pc + 1)), 9))
        } else {
            None
        }
    } else if op == 0x02 {
        Some((Instruction::Pop, 1))
    } else if op == 0x03 || op == 0x04 {
        if room >= 2 {
            let i = bytecode[pc + 1] as usize;
            Some((if op == 0x03 { Instruction::Dup(i) } else { Instruction::Swap(i) }, 2))
        } else {
            None
        }
    } else if op == 0x10 {
        Some((Instruction::Add, 1))
    } else if op == 0x11 {
        Some((Instruction::Sub, 1))
    } else if op == 0x12 {
        Some((Instruction::Mul, 1))
    } else if op == 0x13 {
        Some((Instruction::Div, 1))
    } else if op == 0x14 {
        Some((Instruction::Mod, 1))
    } else if op == 0x20 {
        Some((Instruction::And, 1))
    } else if op == 0x21 {
        Some((Instruction::Or, 1))
    } else if op == 0x22 {
        Some((Instruction::Xor, 1))
    } else if op == 0x23 {
        Some((Instruction::Not, 1))
    } else if op == 0x30 || op == 0x31 {
        if room >= 3 {
            let t = (bytecode[pc + 1] as usize) * 256 + (bytecode[pc + 2] as usize);
            Some((if op == 0x30 { Instruction::Jump(t) } else { Instruction::JumpI(t) }, 3))
        } else {
            None
        }
    } else if op == 0x32 {
        Some((Instruction::Return, 1))
    } else if op == 0x40 {
        Some((Instruction::CreateContract, 1))
    } else if op == 0x41 {
        Some((Instruction::CallContract, 1))
    } else if op == 0x42 {
        Some((Instruction::DestroyContract, 1))
    } else {
        None
    }
}

/// State key under which the contract with identifier `id` is recorded.
pub open spec fn contract_key(id: u64) -> Seq<u8> {
    seq![0xC0u8] + u64_be(id)
}

fn contract_key_bytes(id: u64) -> (r: Vec<u8>)
    ensures
        r@ == contract_key(id),
{
    let mut r = vec![0xC0u8];
    let mut tail = u64_to_be(id);
    r.append(&mut tail);
    r
}

pub open spec fn log_created() -> Seq<char> {
    "contract created"@
}

pub open spec fn log_called() -> Seq<char> {
    "contract called"@
}

pub open spec fn log_destroyed() -> Seq<char> {
    "contract destroyed"@
}

/// The abstract state of a run.
pub struct MachineState {
    pub stack: Seq<u64>,
    pub pc: int,
    pub gas_used: int,
    pub logs: Seq<Seq<char>>,
    pub store: Map<Seq<u8>, Seq<u8>>,
}

/// The state a run starts from.
pub open spec fn initial_machine(store: Map<Seq<u8>, Seq<u8>>) -> MachineState {
    MachineState { stack: Seq::empty(), pc: 0, gas_used: 0, logs: Seq::empty(), store }
}

/// Result of a two-operand instruction on `a` (below) and `b` (top).
pub open spec fn binary_result(ins: Instruction, a: u64, b: u64) -> u64 {
    match ins {
        Instruction::Add => vstd::wrapping::u64_specs::wrapping_add(a, b),
        Instruction::Sub => vstd::wrapping::u64_specs::wrapping_sub(a, b),
        Instruction::Mul => vstd::wrapping::u64_specs::wrapping_mul(a, b),
        Instruction::Div => a / b,
        Instruction::Mod => a % b,
        Instruction::And => a & b,
        Instruction::Or => a | b,
        _ => a ^ b,
    }
}

pub open spec fn is_binary(ins: Instruction) -> bool {
    match ins {
        Instruction::Add | Instruction::Sub | Instruction::Mul | Instruction::Div | Instruction::Mod
        | Instruction::And | Instruction::Or | Instruction::Xor => true,
        _ => false,
    }
}

/// Effect of one instruction, after its gas is charged: the next state and
/// whether the run halts.
pub open spec fn apply(ins: Instruction, next_pc: int, code_len: int, m: MachineState) -> Result<
    (MachineState, bool),
    LedgerError,
> {
    let s = m.stack;
    let n = s.len();
    let step = MachineState { pc: next_pc, ..m };
    match ins {
        Instruction::Push(v) => if n >= MAX_STACK {
            Err(LedgerError::InvalidInstruction)
        } else {
            Ok((MachineState { stack: s.push(v), ..step }, false))
        },
        Instruction::Pop => if n == 0 {
            Err(LedgerError::InvalidInstruction)
        } else {
            Ok((MachineState { stack: s.drop_last(), ..step }, false))
        },
        Instruction::Dup(i) => if i >= n {
            Err(LedgerError::StackIndexOutOfRange)
        } else if n >= MAX_STACK {
            Err(LedgerError::InvalidInstruction)
        } else {
            Ok((MachineState { stack: s.push(s[i as int]), ..step }, false))
        },
        Instruction::Swap(i) => if i + 1 >= n {
            Err(LedgerError::StackIndexOutOfRange)
        } else {
            Ok((
                MachineState { stack: s.update(i as int, s[n - 1]).update(n - 1, s[i as int]), ..step },
                false,
            ))
        },
        Instruction::Not => if n == 0 {
            Err(LedgerError::InvalidInstruction)
        } else {
            Ok((MachineState { stack: s.drop_last().push(!s[n - 1]), ..step }, false))
        },
        Instruction::Jump(t) => if t > code_len {
            Err(LedgerError::InvalidInstruction)
        } else {
            Ok((MachineState { pc: t as int, ..m }, false))
        },
        Instruction::JumpI(t) => if n == 0 {
            Err(LedgerError::InvalidInstruction)
        } else if s[n - 1] == 0 {
            Ok((MachineState { stack: s.drop_last(), ..step }, false))
        } else if t > code_len {
            Err(LedgerError::InvalidInstruction)
        } else {
            Ok((MachineState { stack: s.drop_last(), pc: t as int, ..m }, false))
        },
        Instruction::Return => Ok((step, true)),
        Instruction::CreateContract => if n == 0 {
            Err(LedgerError::InvalidInstruction)
        } else {
            Ok((
                MachineState {
                    stack: s.drop_last(),
                    logs: m.logs.push(log_created()),
                    store: m.store.insert(contract_key(s[n - 1]), seq![1u8]),
                    ..step
                },
                false,
            ))
        },
        Instruction::CallContract => if n == 0 {
            Err(LedgerError::InvalidInstruction)
        } else if !m.store.contains_key(contract_key(s[n - 1])) {
            Err(LedgerError::NotFound)
        } else {
            Ok((MachineState { stack: s.drop_last(), logs: m.logs.push(log_called()), ..step }, false))
        },
        Instruction::DestroyContract => if n == 0 {
            Err(LedgerError::InvalidInstruction)
        } else if !m.store.contains_key(contract_key(s[n - 1])) {
            Err(LedgerError::NotFound)
        } else {
            Ok((
                MachineState {
                    stack: s.drop_last(),
                    logs: m.logs.push(log_destroyed()),
                    store: m.store.remove(contract_key(s[n - 1])),
                    ..step
                },
                false,
            ))
        },
        _ => if n < 2 {
            Err(LedgerError::InvalidInstruction)
        } else if (ins is Div || ins is Mod) && s[n - 1] == 0 {
            Err(LedgerError::DivisionByZero)
        } else {
            Ok((
                MachineState {
                    stack: s.subrange(0, n - 2).push(binary_result(ins, s[n - 2], s[n - 1])),
                    ..step
                },
                false,
            ))
        },
    }
}

/// Outcome of running `code` from `m` with at most `limit` gas in all.
pub open spec fn run(code: Seq<u8>, limit: int, m: MachineState) -> Result<MachineState, LedgerError>
    decreases limit - m.gas_used,
{
    if m.pc < 0 || m.pc >= code.len() {
        Ok(m)
    } else {
        match decode_at(code, m.pc) {
            None => Err(LedgerError::InvalidInstruction),
            Some((ins, size)) => {
                let cost = gas_cost_of(ins) as int;
                if m.gas_used + cost > limit {
                    Err(LedgerError::OutOfGas)
                } else {
                    let charged = MachineState { gas_used: m.gas_used + cost, ..m };
                    match apply(ins, m.pc + size, code.len() as int, charged) {
                        Err(e) => Err(e),
                        Ok((next, halted)) => if halted {
                            Ok(next)
                        } else if cost >= 1 {
                            run(code, limit, MachineState { gas_used: charged.gas_used, ..next })
                        } else {
                            Ok(next)
                        },
                    }
                }
            },
        }
    }
}

/// Whether `e` reports the successful outcome `outcome`: the same writes,
/// log lines and gas used.
pub open spec fn run_yields(outcome: Result<MachineState, LedgerError>, e: Execution) -> bool {
    match outcome {
        Ok(m) => e.state@ == m.store && e.receipt.log_lines() == m.logs
            && e.receipt.compute_units_consumed == m.gas_used,
        Err(_) => false,
    }
}

/// What a run reports: its log lines in order and the gas it consumed.
pub struct Receipt {
    pub logs: Vec<String>,
    pub compute_units_consumed: u64,
}

impl Receipt {
    pub open spec fn log_lines(&self) -> Seq<Seq<char>> {
        self.logs@.map_values(|l: String| l@)
    }
}

/// A successful run: its receipt and the state it leaves, not yet committed.
pub struct Execution {
    pub receipt: Receipt,
    pub state: MerklePatriciaTrie,
}

pub struct VirtualMachine {
    stack: Vec<u64>,
    program_counter: usize,
    gas_limit: u64,
    gas_used: u64,
    logs: Vec<String>,
    state: MerklePatriciaTrie,
}

impl View for VirtualMachine {
    type V = MachineState;

    closed spec fn view(&self) -> MachineState {
        MachineState {
            stack: self.stack@,
            pc: self.program_counter as int,
            gas_used: self.gas_used as int,
            logs: self.logs@.map_values(|l: String| l@),
            store: self.state@,
        }
    }
}

impl VirtualMachine {
    pub closed spec fn wf(&self) -> bool {
        &&& self.state.wf()
        &&& self.gas_used <= self.gas_limit
        &&& self.stack@.len() <= MAX_STACK
    }

    pub closed spec fn limit(&self) -> u64 {
        self.gas_limit
    }

    /// A machine with an empty stack and state and the given gas limit.
    pub fn new(gas_limit: u64) -> (r: Self)
        ensures
            r.wf(),
            r.limit() == gas_limit,
            r@ == initial_machine(Map::empty()),
    {
        let r = VirtualMachine {
            stack: Vec::new(),
            program_counter: 0,
            gas_limit,
            gas_used: 0,
            logs: Vec::new(),
            state: MerklePatriciaTrie::new(),
        };
        assert(r@.logs =~= Seq::<Seq<char>>::empty());
        assert(r@ =~= initial_machine(Map::empty()));
        r
    }

    fn pop_top(&mut self) -> (r: u64)
        requires
            old(self).stack@.len() > 0,
        ensures
            r == old(self).stack@.last(),
            final(self).stack@ == old(self).stack@.drop_last(),
            final(self).program_counter == old(self).program_counter,
            final(self).gas_used == old(self).gas_used,
            final(self).gas_limit == old(self).gas_limit,
            final(self).logs == old(self).logs,
            final(self).state == old(self).state,
    {
        match self.stack.pop() {
            Some(v) => v,
            None => 0,
        }
    }

    fn log(&mut self, line: &str)
        ensures
            final(self).logs@.map_values(|l: String| l@) == old(self).logs@.map_values(
                |l: String| l@,
            ).push(line@),
            final(self).stack == old(self).stack,
            final(self).program_counter == old(self).program_counter,
            final(self).gas_used == old(self).gas_used,
            final(self).gas_limit == old(self).gas_limit,
            final(self).state == old(self).state,
    {
        self.logs.push(String::from_str(line));
        assert(self.logs@.map_values(|l: String| l@) =~= old(self).logs@.map_values(
            |l: String| l@,
        ).push(line@));
    }

    /// Applies one instruction whose gas is already charged; returns whether
    /// the run halts.
    fn execute_instruction(&mut self, ins: Instruction, next_pc: usize, code_len: usize) -> (r:
        Result<bool, LedgerError>)
        requires
            old(self).wf(),
        ensures
            match apply(ins, next_pc as int, code_len as int, old(self)@) {
                Ok((m, halted)) => r == Ok::<bool, LedgerError>(halted) && final(self)@ == m
                    && final(self).wf() && final(self).limit() == old(self).limit(),
                Err(e) => r == Err::<bool, LedgerError>(e),
            },
    {
        let n = self.stack.len();
        let ghost m = self@;
        match ins {
            Instruction::Push(v) => {
                if n >= MAX_STACK {
                    return Err(LedgerError::InvalidInstruction);
                }
                self.stack.push(v);
            },
            Instruction::Pop => {
                if n == 0 {
                    return Err(LedgerError::InvalidInstruction);
                }
                self.pop_top();
            },
            Instruction::Dup(i) => {
                if i >= n {
                    return Err(LedgerError::StackIndexOutOfRange);
                }
                if n >= MAX_STACK {
                    return Err(LedgerError::InvalidInstruction);
                }
                let v = self.stack[i];
                self.stack.push(v);
            },
            Instruction::Swap(i) => {
                if i >= n || i + 1 >= n {
                    return Err(LedgerError::StackIndexOutOfRange);
                }
                let top = self.stack[n - 1];
                let other = self.stack[i];
                self.stack.set(i, top);
                self.stack.set(n - 1, other);
            },
            Instruction::Not => {
                if n == 0 {
                    return Err(LedgerError::InvalidInstruction);
                }
                let a = self.pop_top();
                self.stack.push(!a);
            },
            Instruction::Jump(t) => {
                if t > code_len {
                    return Err(LedgerError::InvalidInstruction);
                }
                self.program_counter = t;
                assert(self@ =~= MachineState { pc: t as int, ..m });
                return Ok(false);
            },
            Instruction::JumpI(t) => {
                if n == 0 {
                    return Err(LedgerError::InvalidInstruction);
                }
                let c = self.stack[n - 1];
                if c != 0 && t > code_len {
                    return Err(LedgerError::InvalidInstruction);
                }
                self.pop_top();
                if c != 0 {
                    self.program_counter = t;
                    assert(self@ =~= MachineState { stack: m.stack.drop_last(), pc: t as int, ..m });
                    return Ok(false);
                }
            },
            Instruction::Return => {
                self.program_counter = next_pc;
                assert(self@ =~= MachineState { pc: next_pc as int, ..m });
                return Ok(true);
            },
            Instruction::CreateContract => {
                if n == 0 {
                    return Err(LedgerError::InvalidInstruction);
                }
                let id = self.pop_top();
                let key = contract_key_bytes(id);
                let one = vec![1u8];
                assert(one@ =~= seq![1u8]);
                self.state.insert(&key, &one);
                self.log("contract created");
            },
            Instruction::CallContract => {
                if n == 0 {
                    return Err(LedgerError::InvalidInstruction);
                }
                let key = contract_key_bytes(self.stack[n - 1]);
                if self.state.get(&key).is_none() {
                    return Err(LedgerError::NotFound);
                }
                self.pop_top();
                self.log("contract called");
            },
            Instruction::DestroyContract => {
                if n == 0 {
                    return Err(LedgerError::InvalidInstruction);
                }
                let key = contract_key_bytes(self.stack[n - 1]);
                if self.state.get(&key).is_none() {
                    return Err(LedgerError::NotFound);
                }
                self.pop_top();
                self.state.delete(&key);
                self.log("contract destroyed");
            },
            _ => {
                if n < 2 {
                    return Err(LedgerError::InvalidInstruction);
                }
                let b = self.stack[n - 1];
                if matches!(ins, Instruction::Div | Instruction::Mod) && b == 0 {
                    return Err(LedgerError::DivisionByZero);
                }
                self.pop_top();
                let a = self.pop_top();
                let v = match ins {
                    Instruction::Add => a.wrapping_add(b),
                    Instruction::Sub => a.wrapping_sub(b),
                    Instruction::Mul => a.wrapping_mul(b),
                    Instruction::Div => a / b,
                    Instruction::Mod => a % b,
                    Instruction::And => a & b,
                    Instruction::Or => a | b,
                    _ => a ^ b,
                };
                self.stack.push(v);
                assert(self.stack@ =~= m.stack.subrange(0, n - 2).push(
                    binary_result(ins, m.stack[n - 2], m.stack[n - 1]),
                ));
            },
        }
        self.program_counter = next_pc;
        proof {
            match apply(ins, next_pc as int, code_len as int, m) {
                Ok((mm, _)) => {
                    assert(self@.stack =~= mm.stack);
                    assert(self@.logs =~= mm.logs);
                    assert(self@ =~= mm);
                },
                Err(_) => {},
            }
        }
        Ok(false)
    }

    /// Runs `bytecode` with at most `gas_limit` gas against a copy of
    /// `state`. On success the receipt holds the log lines and the gas used,
    /// and the copy holds the run's writes; the caller decides whether to
    /// commit it.
    pub fn execute_transaction(bytecode: &[u8], gas_limit: u64, state: &MerklePatriciaTrie) -> (r:
        Result<Execution, LedgerError>)
        requires
            state.wf(),
        ensures
            r is Err <==> run(bytecode@, gas_limit as int, initial_machine(state@)) is Err,
            r matches Err(x) ==> run(bytecode@, gas_limit as int, initial_machine(state@)) == Err::<
                MachineState,
                LedgerError,
            >(x),
            r matches Ok(e) ==> e.receipt.compute_units_consumed <= gas_limit,
            r matches Ok(e) ==> e.state.wf() && run_yields(
                run(bytecode@, gas_limit as int, initial_machine(state@)),
                e,
            ),
    {
        let mut vm = VirtualMachine::new(gas_limit);
        vm.state = state.snapshot();
        let ghost start = vm@;
        assert(start.logs =~= Seq::<Seq<char>>::empty());
        assert(start.stack =~= Seq::<u64>::empty());
        assert(start == initial_machine(state@));
        let mut halted = false;
        while !halted && vm.program_counter < bytecode.len()
            invariant
                start == initial_machine(state@),
                vm.wf(),
                vm.limit() == gas_limit,
                halted ==> run(bytecode@, gas_limit as int, start) == Ok::<
                    MachineState,
                    LedgerError,
                >(vm@),
                !halted ==> run(bytecode@, gas_limit as int, vm@) == run(
                    bytecode@,
                    gas_limit as int,
                    start,
                ),
            decreases gas_limit - vm.gas_used,
        {
            let (ins, size) = match decode_instruction(bytecode, vm.program_counter) {
                Some(p) => p,
                None => {
                    assert(vm@.pc == vm.program_counter as int);
                    assert(run(bytecode@, gas_limit as int, vm@) == Err::<
                        MachineState,
                        LedgerError,
                    >(LedgerError::InvalidInstruction));
                    return Err(LedgerError::InvalidInstruction);
                },
            };
            let cost = gas_cost(ins);
            if cost > vm.gas_limit - vm.gas_used {
                assert(vm@.pc == vm.program_counter as int && vm@.gas_used == vm.gas_used as int);
                assert(run(bytecode@, gas_limit as int, vm@) == Err::<MachineState, LedgerError>(
                    LedgerError::OutOfGas,
                ));
                return Err(LedgerError::OutOfGas);
            }
            vm.gas_used = vm.gas_used + cost;
            let next_pc = vm.program_counter + size;
            match vm.execute_instruction(ins, next_pc, bytecode.len()) {
                Err(e) => {
                    return Err(e);
                },
                Ok(h) => {
                    halted = h;
                },
            }
        }
        let receipt = Receipt { logs: vm.logs, compute_units_consumed: vm.gas_used };
        Ok(Execution { receipt, state: vm.state })
    }
}

} // verus!
