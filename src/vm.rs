//! The instruction interpreter and its memory helpers.
//!
//! The buffer store maps addresses to byte strings. Errors are data: a local
//! error writes the one-byte marker `[1]` into the buffer an instruction
//! names for it, or, where that buffer does not exist, into the global error
//! buffer at `00000000`. Conditions a contract cannot recover from (a
//! malformed number, a modulo by zero, unreadable state) stop the machine
//! with a `VmFault`.
use crate::blockutil::BlockUtilInterface;
use crate::buffer::{u64_from_be, u64_to_be, Buffer};
use crate::bytemap::{copy_bytes, ByteMap};
use crate::codec::{hex_encode, hex_encoding, sha256};
use crate::handlers::{
    charge, encoded, exec_store_instruction, gas_after, number_in, size_charge, size_cost,
};
use crate::math::MathOperation;
use crate::opcode::{decode_opcode, opcode_of, Opcode};
use crate::semantics::{arity, store_gas_after, store_step};
use crate::stack::Stack;
use crate::state::{flushed, State, StateManager};
use crate::syntax_tree::{build_syntax_tree, string_views, Line, LineModel, SyntaxTree};
use crate::text::{
    append_string, debug_bytes, decimal, decimal_string, format_bytes, parse_i64, parse_i64_spec,
    parse_u64, parse_unsigned, push_char, utf8_string,
};
use vstd::prelude::*;
use vstd::utf8::{decode_utf8, valid_utf8};

verus! {

/// The store of live buffers, by address.
pub type BufferStore = ByteMap;

/// The address of the global error buffer.
pub open spec fn global_error_address() -> Seq<char> {
    seq!['0', '0', '0', '0', '0', '0', '0', '0']
}

/// The address of the return-value buffer, carried across returns.
pub open spec fn return_value_address() -> Seq<char> {
    seq!['0', '0', '0', '0', '0', '0', '0', '1']
}

/// The one-byte error marker.
pub open spec fn error_marker() -> Seq<u8> {
    seq![1u8]
}

/// The store after a global error.
pub open spec fn with_global_error(m: Map<Seq<char>, Seq<u8>>) -> Map<Seq<char>, Seq<u8>> {
    if m.contains_key(global_error_address()) {
        m.insert(global_error_address(), error_marker())
    } else {
        m
    }
}

/// The store after a local error at `loc`.
pub open spec fn with_local_error(m: Map<Seq<char>, Seq<u8>>, loc: Seq<char>) -> Map<
    Seq<char>,
    Seq<u8>,
> {
    if m.contains_key(loc) {
        m.insert(loc, error_marker())
    } else {
        with_global_error(m)
    }
}

/// A condition that stops the machine: the contract cannot go on.
#[derive(Debug, Clone, Copy, PartialEq, Eq, Structural)]
pub enum VmFault {
    /// An instruction lacks an operand it needs.
    MissingOperand,
    /// A literal operand is no valid number or jump target.
    InvalidLiteral,
    /// A buffer read as a number does not hold exactly eight bytes.
    MalformedNumber,
    /// A modulo by zero.
    ModuloByZero,
    /// A buffer to free does not exist.
    FreeOfMissingBuffer,
    /// A constant is no valid hexadecimal text.
    InvalidHex,
    /// A return with no call frame to return to.
    EmptyCallStack,
    /// A slice or shift reaches past the end of its buffer.
    RangeOutOfBounds,
    /// Text printed from a buffer is no valid UTF-8.
    InvalidText,
    /// The committed state could not give a value.
    StateUnavailable,
    /// An invoked contract could not be read.
    ContractUnavailable,
    /// The machine ran for more steps than it can count.
    StepLimit,
    /// The inputs of a batch do not fit together.
    MalformedBatch,
}

/// The address of the global error buffer.
pub fn global_error_location() -> (r: String)
    ensures
        r@ == global_error_address(),
{
    proof {
        reveal_strlit("00000000");
    }
    let r = "00000000".to_owned();
    assert(r@ =~= global_error_address());
    r
}

/// The address of the return-value buffer.
pub fn return_value_location() -> (r: String)
    ensures
        r@ == return_value_address(),
{
    proof {
        reveal_strlit("00000001");
    }
    let r = "00000001".to_owned();
    assert(r@ =~= return_value_address());
    r
}

/// The error marker.
fn marker() -> (r: Vec<u8>)
    ensures
        r@ == error_marker(),
{
    let mut r: Vec<u8> = Vec::new();
    r.push(1);
    assert(r@ =~= error_marker());
    r
}

/// Whether a buffer exists at `loc`.
pub fn vm_check_buffer_initialization(buffers: &BufferStore, loc: String) -> (r: bool)
    requires
        buffers.wf(),
    ensures
        r == buffers@.contains_key(loc@),
{
    buffers.contains_key(&loc)
}

/// Writes the error marker into the global error buffer, if it exists.
pub fn vm_throw_global_error(buffers: &mut BufferStore)
    requires
        old(buffers).wf(),
    ensures
        final(buffers).wf(),
        final(buffers)@ == with_global_error(old(buffers)@),
{
    let g = global_error_location();
    if buffers.contains_key(&g) {
        buffers.insert(g, marker());
    }
}

/// Writes the error marker into the buffer at `loc`, or raises a global
/// error where there is none.
pub fn vm_throw_local_error(buffers: &mut BufferStore, loc: String)
    requires
        old(buffers).wf(),
    ensures
        final(buffers).wf(),
        final(buffers)@ == with_local_error(old(buffers)@, loc@),
{
    if !buffers.contains_key(&loc) {
        vm_throw_global_error(buffers);
        return ;
    }
    buffers.insert(loc, marker());
}

/// The contents of the buffer at `loc`; where there is none, a local error
/// at `err_loc` and no bytes.
pub fn vm_access_buffer_contents(buffers: &mut BufferStore, loc: String, err_loc: String) -> (r:
    Vec<u8>)
    requires
        old(buffers).wf(),
    ensures
        final(buffers).wf(),
        old(buffers)@.contains_key(loc@) ==> r@ == old(buffers)@[loc@] && final(buffers)@ == old(
            buffers,
        )@,
        !old(buffers)@.contains_key(loc@) ==> r@ == Seq::<u8>::empty() && final(buffers)@
            == with_local_error(old(buffers)@, err_loc@),
{
    match buffers.get(&loc) {
        Some(v) => copy_bytes(v),
        None => {
            vm_throw_local_error(buffers, err_loc);
            Vec::new()
        },
    }
}

/// A copy of the buffer at `loc`; where there is none, a local error at
/// `err_loc` and no buffer.
pub fn vm_access_buffer(buffers: &mut BufferStore, loc: String, err_loc: String) -> (r: Option<
    Buffer,
>)
    requires
        old(buffers).wf(),
    ensures
        final(buffers).wf(),
        old(buffers)@.contains_key(loc@) ==> r is Some && r->0@ == old(buffers)@[loc@]
            && final(buffers)@ == old(buffers)@,
        !old(buffers)@.contains_key(loc@) ==> r is None && final(buffers)@ == with_local_error(
            old(buffers)@,
            err_loc@,
        ),
{
    match buffers.get(&loc) {
        Some(v) => Some(Buffer { contents: copy_bytes(v) }),
        None => {
            vm_throw_local_error(buffers, err_loc);
            None
        },
    }
}

/// How an exit instruction ended a run.
pub struct VmExitDetails {
    pub exit_code: i64,
    pub gas_used: i64,
}

/// The outcome of one instruction: an exit, or the instruction to run next.
pub struct VmInstructionResult {
    pub exit_details: Option<VmExitDetails>,
    pub next_pc: usize,
}

/// The exit code reported when a run exceeds its gas limit.
pub const OUT_OF_GAS_EXIT_CODE: i64 = 2;

/// The most instructions one run executes.
pub const STEP_LIMIT: u64 = 0xffff_ffff_ffff_ffff;

/// The zero-based instruction a one-based jump operand names.
pub open spec fn jump_target(t: Seq<char>) -> Option<usize> {
    match parse_unsigned(t, usize::MAX as nat) {
        Some(v) => if v >= 1 {
            Some((v - 1) as usize)
        } else {
            None
        },
        None => None,
    }
}

/// The store after a return: the caller's saved store, with the callee's
/// return-value buffer carried over where the callee has one.
pub open spec fn store_after_return(
    saved: Map<Seq<char>, Seq<u8>>,
    callee: Map<Seq<char>, Seq<u8>>,
) -> Map<Seq<char>, Seq<u8>> {
    if callee.contains_key(return_value_address()) {
        saved.insert(return_value_address(), callee[return_value_address()])
    } else {
        saved
    }
}

/// The zero-based instruction that a one-based jump operand names.
fn parse_jump_target(t: &String) -> (r: Result<usize, VmFault>)
    ensures
        match jump_target(t@) {
            Some(v) => r == Ok::<usize, VmFault>(v),
            None => r == Err::<usize, VmFault>(VmFault::InvalidLiteral),
        },
{
    match parse_u64(t.as_str()) {
        Some(v) => {
            if v >= 1 && v <= usize::MAX as u64 {
                Ok((v - 1) as usize)
            } else {
                Err(VmFault::InvalidLiteral)
            }
        },
        None => Err(VmFault::InvalidLiteral),
    }
}

/// The bytes of a buffer that exists.
fn contents_at(buffers: &BufferStore, loc: &String) -> (r: Vec<u8>)
    requires
        buffers.wf(),
        buffers@.contains_key(loc@),
    ensures
        r@ == buffers@[loc@],
{
    copy_bytes(buffers.get(loc).unwrap())
}

/// Appends a string and a newline to the log.
fn log_line(out: &mut String, s: &String)
    ensures
        final(out)@ == old(out)@ + s@ + seq!['\n'],
{
    append_string(out, s);
    push_char(out, '\n');
}

/// How a run of the interpreter loop stopped.
pub enum Halt {
    /// An exit instruction ran.
    Exited(VmExitDetails),
    /// The gas used exceeded the limit before an instruction.
    OutOfGas,
    /// The program counter left the instruction list.
    Finished,
}

/// The exit code and gas a run reports.
pub open spec fn report_spec(h: Halt, gas_used: i64, gas_limit: i64) -> (i64, i64) {
    match h {
        Halt::Exited(d) => (d.exit_code, d.gas_used),
        Halt::OutOfGas => (OUT_OF_GAS_EXIT_CODE, gas_limit),
        Halt::Finished => (0, gas_used),
    }
}

/// The exit code and gas a run reports: an exit's own, the out-of-gas code
/// with the gas pinned at the limit, or success with the gas used.
pub fn report(h: Halt, gas_used: i64, gas_limit: i64) -> (r: (i64, i64))
    ensures
        r == report_spec(h, gas_used, gas_limit),
{
    match h {
        Halt::Exited(d) => (d.exit_code, d.gas_used),
        Halt::OutOfGas => (OUT_OF_GAS_EXIT_CODE, gas_limit),
        Halt::Finished => (0, gas_used),
    }
}

/// The operands of a line.
pub open spec fn operands(line: &Line) -> Seq<Seq<char>> {
    string_views(line.args@)
}

/// The views of a list of operands.
pub open spec fn operand_views(args: Seq<String>) -> Seq<Seq<char>> {
    string_views(args)
}

/// The state location a number names inside a contract's own namespace.
fn internal_location(contract_hash: &String, loc: u64) -> (r: String)
    ensures
        r@ == contract_hash@ + crate::text::decimal(loc as nat),
{
    let mut r = contract_hash.clone();
    let d = decimal_string(loc);
    append_string(&mut r, &d);
    r
}

/// Appends `TX sender receiver amount` to the log.
fn log_transaction(out: &mut String, sender: &String, receiver: &String, amount: &String)
    ensures
        final(out)@ == old(out)@ + transaction_line(sender@, receiver@, amount@),
{
    push_char(out, 'T');
    push_char(out, 'X');
    push_char(out, ' ');
    append_string(out, sender);
    push_char(out, ' ');
    append_string(out, receiver);
    push_char(out, ' ');
    append_string(out, amount);
    push_char(out, '\n');
}

/// The log line of a transaction.
pub open spec fn transaction_line(sender: Seq<char>, receiver: Seq<char>, amount: Seq<char>) -> Seq<
    char,
> {
    seq!['T', 'X', ' '] + sender + seq![' '] + receiver + seq![' '] + amount + seq!['\n']
}

/// Reading the buffer at `loc` as text: its characters, or nothing where it
/// is missing or not UTF-8, with a local error at `err` then.
pub open spec fn text_read(m: Map<Seq<char>, Seq<u8>>, loc: Seq<char>, err: Seq<char>) -> (
    Seq<char>,
    Map<Seq<char>, Seq<u8>>,
) {
    let (bytes, m1) = crate::semantics::access(m, loc, err);
    if valid_utf8(bytes) {
        (decode_utf8(bytes), m1)
    } else {
        (Seq::empty(), with_local_error(m1, err))
    }
}

/// The text of a buffer read as data; invalid UTF-8 is a local error and
/// reads as nothing.
fn text_operand(buffers: &mut BufferStore, loc: String, err: String) -> (r: String)
    requires
        old(buffers).wf(),
    ensures
        final(buffers).wf(),
        (r@, final(buffers)@) == text_read(old(buffers)@, loc@, err@),
{
    let bytes = vm_access_buffer_contents(buffers, loc, err.clone());
    match utf8_string(bytes) {
        Some(t) => t,
        None => {
            vm_throw_local_error(buffers, err);
            String::new()
        },
    }
}

/// The state location an update instruction writes: inside the contract's
/// namespace for `UpdateState`, bare for `UpdateStateExternal`.
pub open spec fn update_location(op: Opcode, hash: Seq<char>, loc: Seq<u8>) -> Seq<char> {
    if op == Opcode::UpdateState {
        hash + decimal(u64_from_be(loc) as nat)
    } else {
        decimal(u64_from_be(loc) as nat)
    }
}

/// Whether a state read names its location by number in the contract's
/// namespace, rather than by the hexadecimal text of a buffer.
pub open spec fn reads_internal(op: Opcode) -> bool {
    op == Opcode::GetFromState || op == Opcode::GetFromStateSync
}

/// Whether a state read looks at the pending overlay first.
pub open spec fn reads_sync(op: Opcode) -> bool {
    op == Opcode::GetFromStateSync || op == Opcode::GetFromStateExternalSync
}

/// The state location a read instruction reads.
pub open spec fn read_location(op: Opcode, hash: Seq<char>, loc: Seq<u8>) -> Seq<char> {
    if reads_internal(op) {
        hash + decimal(u64_from_be(loc) as nat)
    } else {
        hex_encoding(loc)
    }
}

/// The store after a local error that may already have been raised once.
proof fn lemma_local_error_twice(m: Map<Seq<char>, Seq<u8>>, loc: Seq<char>)
    ensures
        with_local_error(with_local_error(m, loc), loc) == with_local_error(m, loc),
{
    assert(with_local_error(with_local_error(m, loc), loc) =~= with_local_error(m, loc));
}

/// The effect of an output, state or host instruction on the store, the
/// cache and the log, given its operands. What the host and the committed
/// tier answer is left open.
pub open spec fn io_step(
    op: Opcode,
    args: Seq<Seq<char>>,
    hash: Seq<char>,
    sender: Seq<u8>,
    m: Map<Seq<char>, Seq<u8>>,
    pending: Map<Seq<char>, Seq<u8>>,
    cache: Map<Seq<char>, Seq<u8>>,
    out: Seq<char>,
    m2: Map<Seq<char>, Seq<u8>>,
    cache2: Map<Seq<char>, Seq<u8>>,
    out2: Seq<char>,
    r: Result<(), VmFault>,
) -> bool {
    match op {
        Opcode::Stdout => r is Ok && cache2 == cache && m2 == (if m.contains_key(args[0]) {
            m
        } else {
            with_local_error(m, args[1])
        }) && out2 == out + debug_bytes(
            if m.contains_key(args[0]) {
                m[args[0]]
            } else {
                Seq::empty()
            },
        ) + seq!['\n'],
        Opcode::PrintStr => cache2 == cache && if !m.contains_key(args[0]) {
            r is Ok && m2 == with_local_error(m, args[1]) && out2 == out
        } else if valid_utf8(m[args[0]]) {
            r is Ok && m2 == m && out2 == out + decode_utf8(m[args[0]]) + seq!['\n']
        } else {
            r == Err::<(), VmFault>(VmFault::InvalidText)
        },
        Opcode::Tx => {
            let (s1, m1) = text_read(m, args[0], args[3]);
            let (s2, mm2) = text_read(m1, args[1], args[3]);
            let (s3, m3) = text_read(mm2, args[2], args[3]);
            r is Ok && cache2 == cache && m2 == m3 && out2 == out + transaction_line(s1, s2, s3)
        },
        Opcode::QueryOracle => cache2 == cache && out2 == out && if !(m.contains_key(args[0])
            && m.contains_key(args[1]) && m.contains_key(args[2])) {
            r is Ok && m2 == with_local_error(m, args[3])
        } else if m[args[0]].len() != 8 {
            r == Err::<(), VmFault>(VmFault::MalformedNumber)
        } else {
            r is Ok && exists|answer: Seq<u8>|
                m2 == m.insert(args[0], answer) || m2 == with_local_error(m, args[3]).insert(
                    args[0],
                    answer,
                )
        },
        Opcode::Stderr => r is Ok && cache2 == cache && out2 == out && m2 == (
        if m.contains_key(args[0]) {
            m
        } else {
            with_local_error(m, args[1])
        }),
        Opcode::GetSender => cache2 == cache && out2 == out && if m.contains_key(args[0]) {
            r is Ok && m2 == m.insert(args[0], sender)
        } else if args.len() < 2 {
            r == Err::<(), VmFault>(VmFault::MissingOperand)
        } else {
            r is Ok && m2 == with_local_error(m, args[1])
        },
        Opcode::ChainLen => cache2 == cache && out2 == out && if m.contains_key(args[0]) {
            r is Ok && exists|n: u64| m2 == m.insert(args[0], u64_to_be(n))
        } else if args.len() < 2 {
            r == Err::<(), VmFault>(VmFault::MissingOperand)
        } else {
            r is Ok && m2 == with_local_error(m, args[1])
        },
        Opcode::UpdateState | Opcode::UpdateStateExternal => out2 == out && if !(m.contains_key(
            args[0],
        ) && m.contains_key(args[1])) {
            r is Ok && m2 == with_local_error(m, args[2]) && cache2 == cache
        } else if m[args[0]].len() != 8 {
            r == Err::<(), VmFault>(VmFault::MalformedNumber)
        } else {
            r is Ok && m2 == m && cache2 == cache.insert(
                update_location(op, hash, m[args[0]]),
                m[args[1]],
            )
        },
        Opcode::GetFromState | Opcode::GetFromStateExternal | Opcode::GetFromStateSync
        | Opcode::GetFromStateExternalSync => out2 == out && if !(m.contains_key(args[0])
            && m.contains_key(args[1])) {
            r is Ok && m2 == with_local_error(m, args[2]) && cache2 == cache
        } else if reads_internal(op) && m[args[0]].len() != 8 {
            r == Err::<(), VmFault>(VmFault::MalformedNumber)
        } else {
            let loc = read_location(op, hash, m[args[0]]);
            match crate::state::local_read(pending, cache, loc, reads_sync(op)) {
                Some(v) => r is Ok && m2 == m.insert(args[1], v) && cache2 == cache,
                None => (r is Ok ==> cache2 == cache.insert(loc, cache2[loc]) && m2 == m.insert(
                    args[1],
                    cache2[loc],
                )) && (r is Err ==> r == Err::<(), VmFault>(VmFault::StateUnavailable)),
            }
        },
        _ => true,
    }
}

/// The gas used after an output, state or host instruction that succeeds,
/// from `g` before it.
pub open spec fn io_gas_after(op: Opcode, args: Seq<Seq<char>>, m: Map<Seq<char>, Seq<u8>>, g: i64) -> i64 {
    match op {
        Opcode::Stdout | Opcode::PrintStr | Opcode::Stderr | Opcode::GetSender => gas_after(g, 1),
        Opcode::ChainLen | Opcode::GetFromState | Opcode::GetFromStateExternal
        | Opcode::GetFromStateSync | Opcode::GetFromStateExternalSync => gas_after(g, 2),
        Opcode::Tx => gas_after(g, 4),
        Opcode::QueryOracle => gas_after(gas_after(g, 10), 10),
        Opcode::UpdateState | Opcode::UpdateStateExternal => if m.contains_key(args[0])
            && m.contains_key(args[1]) {
            gas_after(gas_after(g, 3), size_charge(m[args[1]].len(), 6))
        } else {
            gas_after(g, 3)
        },
        _ => g,
    }
}

/// Whether an instruction asks the oracle: a `QueryOracle` whose buffers
/// exist, with an eight-byte query type.
pub open spec fn oracle_asked(op: Opcode, args: Seq<Seq<char>>, m: Map<Seq<char>, Seq<u8>>) -> bool {
    op == Opcode::QueryOracle && args.len() >= 4 && m.contains_key(args[0]) && m.contains_key(
        args[1],
    ) && m.contains_key(args[2]) && m[args[0]].len() == 8
}

/// Runs one instruction that reads or writes state, the host, or the log.
#[verifier::rlimit(50)]
fn exec_io_instruction<B: State, D: BlockUtilInterface>(
    op: Opcode,
    args: &Vec<String>,
    buffers: &mut BufferStore,
    blockutil_interface: &mut D,
    contract_hash: &String,
    gas_used: &mut i64,
    state_manager: &mut StateManager<B>,
    sender: &Vec<u8>,
    out: &mut String,
) -> (r: Result<(), VmFault>)
    requires
        old(buffers).wf(),
        old(state_manager).wf(),
        args@.len() >= arity(op),
    ensures
        final(buffers).wf(),
        final(state_manager).wf(),
        *final(gas_used) >= *old(gas_used),
        final(state_manager).pending_state@ == old(state_manager).pending_state@,
        io_step(
            op,
            operand_views(args@),
            contract_hash@,
            sender@,
            old(buffers)@,
            old(state_manager).pending_state@,
            old(state_manager).cached_state@,
            old(out)@,
            final(buffers)@,
            final(state_manager).cached_state@,
            final(out)@,
            r,
        ),
        r is Ok ==> *final(gas_used) == io_gas_after(
            op,
            operand_views(args@),
            old(buffers)@,
            *old(gas_used),
        ),
        oracle_asked(op, operand_views(args@), old(buffers)@) ==> old(blockutil_interface).queried(
            final(blockutil_interface),
            u64_from_be(old(buffers)@[args@[0]@]),
            old(buffers)@[args@[1]@],
        ),
{
    let ghost av = operand_views(args@);
    assert(forall|i: int| 0 <= i < args@.len() ==> av[i] == #[trigger] args@[i]@);
    proof {
        lemma_local_error_twice(old(buffers)@, av[1]);
    }
    match op {
        Opcode::Stdout => {
            charge(gas_used, 1);
            if !vm_check_buffer_initialization(buffers, args[0].clone()) {
                vm_throw_local_error(buffers, args[1].clone());
            }
            let c = vm_access_buffer_contents(buffers, args[0].clone(), args[1].clone());
            let text = format_bytes(&c);
            log_line(out, &text);
            Ok(())
        },
        Opcode::PrintStr => {
            charge(gas_used, 1);
            if !vm_check_buffer_initialization(buffers, args[0].clone()) {
                vm_throw_local_error(buffers, args[1].clone());
                return Ok(());
            }
            match utf8_string(contents_at(buffers, &args[0])) {
                Some(t) => {
                    log_line(out, &t);
                    Ok(())
                },
                None => Err(VmFault::InvalidText),
            }
        },
        Opcode::Stderr => {
            charge(gas_used, 1);
            if !vm_check_buffer_initialization(buffers, args[0].clone()) {
                vm_throw_local_error(buffers, args[1].clone());
            }
            Ok(())
        },
        Opcode::Tx => {
            let s = text_operand(buffers, args[0].clone(), args[3].clone());
            let rcv = text_operand(buffers, args[1].clone(), args[3].clone());
            let amount = text_operand(buffers, args[2].clone(), args[3].clone());
            log_transaction(out, &s, &rcv, &amount);
            charge(gas_used, 4);
            Ok(())
        },
        Opcode::ChainLen => {
            charge(gas_used, 2);
            if !vm_check_buffer_initialization(buffers, args[0].clone()) {
                if args.len() < 2 {
                    return Err(VmFault::MissingOperand);
                }
                vm_throw_local_error(buffers, args[1].clone());
                return Ok(());
            }
            let len = blockutil_interface.get_blockchain_len();
            buffers.insert(args[0].clone(), encoded(len));
            Ok(())
        },
        Opcode::UpdateState | Opcode::UpdateStateExternal => {
            charge(gas_used, 3);
            if !vm_check_buffer_initialization(buffers, args[0].clone())
                || !vm_check_buffer_initialization(buffers, args[1].clone()) {
                vm_throw_local_error(buffers, args[2].clone());
                return Ok(());
            }
            let loc = number_in(buffers, &args[0])?;
            let contents = contents_at(buffers, &args[1]);
            let location = if op == Opcode::UpdateState {
                internal_location(contract_hash, loc)
            } else {
                decimal_string(loc)
            };
            charge(gas_used, size_cost(contents.len(), 6));
            state_manager.write(location, contents, out);
            Ok(())
        },
        Opcode::GetFromState | Opcode::GetFromStateExternal | Opcode::GetFromStateSync
        | Opcode::GetFromStateExternalSync => {
            charge(gas_used, 2);
            if !vm_check_buffer_initialization(buffers, args[0].clone())
                || !vm_check_buffer_initialization(buffers, args[1].clone()) {
                vm_throw_local_error(buffers, args[2].clone());
                return Ok(());
            }
            let location = if op == Opcode::GetFromState || op == Opcode::GetFromStateSync {
                let loc = number_in(buffers, &args[0])?;
                internal_location(contract_hash, loc)
            } else {
                hex_encode(contents_at(buffers, &args[0]).as_slice())
            };
            let got = if op == Opcode::GetFromStateSync || op == Opcode::GetFromStateExternalSync {
                state_manager.get_sync(location)
            } else {
                state_manager.get(location)
            };
            match got {
                Ok(v) => {
                    buffers.insert(args[1].clone(), v);
                    Ok(())
                },
                Err(_) => Err(VmFault::StateUnavailable),
            }
        },
        Opcode::QueryOracle => {
            charge(gas_used, 10);
            if !vm_check_buffer_initialization(buffers, args[0].clone())
                || !vm_check_buffer_initialization(buffers, args[1].clone())
                || !vm_check_buffer_initialization(buffers, args[2].clone()) {
                vm_throw_local_error(buffers, args[3].clone());
                charge(gas_used, 10);
                return Ok(());
            }
            let query_type = number_in(buffers, &args[0])?;
            let body = contents_at(buffers, &args[1]);
            let (response, ok) = blockutil_interface.query_oracle(query_type, body);
            let ghost answer = response@;
            if !ok {
                vm_throw_local_error(buffers, args[3].clone());
            }
            buffers.insert(args[0].clone(), response);
            assert(buffers@ == old(buffers)@.insert(av[0], answer) || buffers@ == with_local_error(
                old(buffers)@,
                av[3],
            ).insert(av[0], answer));
            charge(gas_used, 10);
            Ok(())
        },
        Opcode::GetSender => {
            charge(gas_used, 1);
            if !vm_check_buffer_initialization(buffers, args[0].clone()) {
                if args.len() < 2 {
                    return Err(VmFault::MissingOperand);
                }
                vm_throw_local_error(buffers, args[1].clone());
                return Ok(());
            }
            buffers.insert(args[0].clone(), copy_bytes(sender));
            Ok(())
        },
        _ => Ok(()),
    }
}

/// Whether an operation works on the log, the state or the host.
pub open spec fn is_io(op: Opcode) -> bool {
    match op {
        Opcode::Stdout | Opcode::PrintStr | Opcode::Stderr | Opcode::Tx | Opcode::ChainLen
        | Opcode::UpdateState | Opcode::UpdateStateExternal | Opcode::GetFromState
        | Opcode::GetFromStateExternal | Opcode::GetFromStateSync
        | Opcode::GetFromStateExternalSync | Opcode::QueryOracle | Opcode::GetSender => true,
        _ => false,
    }
}

/// An instruction's outcome without its control flow.
pub open spec fn outcome(r: Result<VmInstructionResult, VmFault>) -> Result<(), VmFault> {
    match r {
        Ok(_) => Ok(()),
        Err(f) => Err(f),
    }
}

/// The next instruction after `pc`, with no exit.
pub open spec fn advances(r: VmInstructionResult, pc: usize) -> bool {
    r.exit_details is None && r.next_pc == pc + 1
}

/// The machine state an instruction reads and leaves: the buffer store,
/// the call stack, the gas used, the state cache and the output log.
pub struct MachineModel {
    pub store: Map<Seq<char>, Seq<u8>>,
    pub frames: Seq<(Map<Seq<char>, Seq<u8>>, usize)>,
    pub gas: i64,
    pub cache: Map<Seq<char>, Seq<u8>>,
    pub out: Seq<char>,
}

/// A machine state from its parts.
pub open spec fn machine(
    store: Map<Seq<char>, Seq<u8>>,
    frames: Seq<(Map<Seq<char>, Seq<u8>>, usize)>,
    gas: i64,
    cache: Map<Seq<char>, Seq<u8>>,
    out: Seq<char>,
) -> MachineModel {
    MachineModel { store, frames, gas, cache, out }
}

/// What running the instruction `line` at `pc` does: the outcome `r` and
/// the state `post` it leaves from `pre`. The host's and the committed
/// tier's answers are left open, as is a nested `Invoke`.
pub open spec fn instruction_step(
    line: LineModel,
    pc: usize,
    hash: Seq<char>,
    sender: Seq<u8>,
    pending: Map<Seq<char>, Seq<u8>>,
    pre: MachineModel,
    post: MachineModel,
    r: Result<VmInstructionResult, VmFault>,
) -> bool {
    let op = opcode_of(line.0);
    let args = line.1;
    let m = pre.store;
    &&& post.gas >= pre.gas
    &&& r is Ok && r->Ok_0.exit_details is Some ==> r->Ok_0.exit_details->0.gas_used == post.gas
    &&& (!is_io(op) && op != Opcode::Invoke) ==> post.cache == pre.cache && post.out == pre.out
    &&& (op != Opcode::Call && op != Opcode::Ret && op != Opcode::Invoke) ==> post.frames
        == pre.frames
    &&& is_io(op) ==> post.frames == pre.frames
    &&& args.len() < arity(op) ==> r == Err::<VmInstructionResult, VmFault>(
        VmFault::MissingOperand,
    )
    &&& store_step(op, args, m) is Some ==> match store_step(op, args, m)->0 {
        Ok(m2) => r is Ok && advances(r->Ok_0, pc) && post.store == m2
            && post.frames == pre.frames && post.gas == store_gas_after(op, args, m, pre.gas),
        Err(f) => r == Err::<VmInstructionResult, VmFault>(f),
    }
    &&& op == Opcode::Next ==> r is Ok && advances(r->Ok_0, pc) && post.store == m
        && post.gas == pre.gas
    &&& (is_io(op) && args.len() >= arity(op)) ==> (r is Ok ==> advances(r->Ok_0, pc))
        && io_step(
        op,
        args,
        hash,
        sender,
        m,
        pending,
        pre.cache,
        pre.out,
        post.store,
        post.cache,
        post.out,
        outcome(r),
    ) && (r is Ok ==> post.gas == io_gas_after(op, args, m, pre.gas))
    &&& op == Opcode::Unknown ==> r is Ok && advances(r->Ok_0, pc) && post.store
        == with_global_error(m) && post.gas == pre.gas
    &&& ((op == Opcode::Exit || op == Opcode::Jmp) && args.len() >= 1) || (op
        == Opcode::ExitBfr && args.len() >= 2) ==> post.gas == gas_after(
        pre.gas,
        1,
    )
    &&& (op == Opcode::JmpCond && args.len() >= 3) ==> post.gas == gas_after(
        pre.gas,
        2,
    )
    &&& (op == Opcode::Call || op == Opcode::Ret) ==> post.gas == pre.gas
    &&& (op == Opcode::Invoke && args.len() >= 1 && r is Ok) ==> advances(r->Ok_0, pc)
    &&& (op == Opcode::Exit && args.len() >= 1) ==> match parse_i64_spec(args[0]) {
        Some(c) => r is Ok && r->Ok_0.exit_details is Some
            && r->Ok_0.exit_details->0.exit_code == c
            && r->Ok_0.exit_details->0.gas_used == post.gas,
        None => r == Err::<VmInstructionResult, VmFault>(VmFault::InvalidLiteral),
    }
    &&& (op == Opcode::Jmp && args.len() >= 1) ==> match jump_target(args[0]) {
        Some(t) => r is Ok && r->Ok_0.exit_details is None && r->Ok_0.next_pc == t
            && post.store == m,
        None => r == Err::<VmInstructionResult, VmFault>(VmFault::InvalidLiteral),
    }
    &&& (op == Opcode::Call && args.len() >= 1) ==> match jump_target(args[0]) {
        Some(t) => r is Ok && r->Ok_0.exit_details is None && r->Ok_0.next_pc == t
            && post.store == m && post.frames == pre.frames.push((m, (pc + 1) as usize)),
        None => r == Err::<VmInstructionResult, VmFault>(VmFault::InvalidLiteral),
    }
    &&& op == Opcode::Ret ==> if pre.frames.len() == 0 {
        r == Err::<VmInstructionResult, VmFault>(VmFault::EmptyCallStack)
    } else {
        r is Ok && r->Ok_0.exit_details is None && r->Ok_0.next_pc == pre.frames.last().1 && post.frames == pre.frames.drop_last() && post.store
            == store_after_return(pre.frames.last().0, m)
    }
    &&& (op == Opcode::JmpCond && args.len() >= 3) ==> if !m.contains_key(args[0]) {
        r is Ok && advances(r->Ok_0, pc) && post.store == with_local_error(
            m,
            args[2],
        )
    } else if m[args[0]].len() != 8 {
        r == Err::<VmInstructionResult, VmFault>(VmFault::MalformedNumber)
    } else if u64_from_be(m[args[0]]) == 0 {
        r is Ok && advances(r->Ok_0, pc) && post.store == m
    } else {
        match jump_target(args[1]) {
            Some(t) => r is Ok && r->Ok_0.exit_details is None && r->Ok_0.next_pc
                == t && post.store == m,
            None => r == Err::<VmInstructionResult, VmFault>(VmFault::InvalidLiteral),
        }
    }
    &&& (op == Opcode::ExitBfr && args.len() >= 2) ==> if !m.contains_key(args[0]) {
        r is Ok && advances(r->Ok_0, pc) && post.store == with_local_error(
            m,
            args[1],
        )
    } else if m[args[0]].len() == 8 {
        r is Ok && r->Ok_0.exit_details is Some
            && r->Ok_0.exit_details->0.exit_code == u64_from_be(m[args[0]]) as i64
            && r->Ok_0.exit_details->0.gas_used == post.gas
    } else {
        r == Err::<VmInstructionResult, VmFault>(VmFault::MalformedNumber)
    }
}

/// Runs one instruction, as `instruction_step` describes. State, host and
/// log instructions go through the state manager, the host interface and
/// `out`. `Invoke` runs the other contract to completion against the same
/// state manager and gas counter, on at most `fuel` further steps; its
/// writes stay in the shared cache and are flushed with the outermost run.
/// The second result is the fuel left.
#[verifier::rlimit(100)]
pub fn vm_execute_instruction<B: State, D: BlockUtilInterface>(
    line: &Line,
    buffers: &mut BufferStore,
    blockutil_interface: &mut D,
    contract_hash: &String,
    pc: usize,
    gas_used: &mut i64,
    stack: &mut Stack,
    state_manager: &mut StateManager<B>,
    gas_limit: i64,
    sender: &Vec<u8>,
    out: &mut String,
    fuel: u64,
) -> (r: (Result<VmInstructionResult, VmFault>, u64))
    requires
        old(buffers).wf(),
        old(stack).wf(),
        old(state_manager).wf(),
        pc < usize::MAX,
    ensures
        final(buffers).wf(),
        final(stack).wf(),
        final(state_manager).wf(),
        *final(gas_used) >= *old(gas_used),
        r.1 <= fuel,
        opcode_of(line.command@) != Opcode::Invoke ==> r.1 == fuel,
        oracle_asked(opcode_of(line.command@), line@.1, old(buffers)@) ==> old(
            blockutil_interface,
        ).queried(
            final(blockutil_interface),
            u64_from_be(old(buffers)@[line@.1[0]]),
            old(buffers)@[line@.1[1]],
        ),
        r.0 == Err::<VmInstructionResult, VmFault>(VmFault::StepLimit) ==> opcode_of(line.command@)
            == Opcode::Invoke,
        final(state_manager).pending_state@ == old(state_manager).pending_state@,
        instruction_step(
            line@,
            pc,
            contract_hash@,
            sender@,
            old(state_manager).pending_state@,
            machine(
                old(buffers)@,
                old(stack)@,
                *old(gas_used),
                old(state_manager).cached_state@,
                old(out)@,
            ),
            machine(
                final(buffers)@,
                final(stack)@,
                *final(gas_used),
                final(state_manager).cached_state@,
                final(out)@,
            ),
            r.0,
        ),
    decreases fuel,
{
    let op = decode_opcode(&line.command);
    let ghost args = operands(line);
    assert(forall|i: int| 0 <= i < line.args@.len() ==> args[i] == #[trigger] line.args@[i]@);
    let next = VmInstructionResult { exit_details: None, next_pc: pc + 1 };
    if line.args.len() < arity_of(op) {
        return (Err(VmFault::MissingOperand), fuel);
    }
    match op {
        Opcode::Next => (Ok(next), fuel),
        Opcode::Unknown => {
            vm_throw_global_error(buffers);
            (Ok(next), fuel)
        },
        Opcode::Exit => {
            charge(gas_used, 1);
            match parse_i64(line.args[0].as_str()) {
                Some(code) => (
                    Ok(
                        VmInstructionResult {
                            exit_details: Some(VmExitDetails { exit_code: code, gas_used: *gas_used }),
                            next_pc: 0,
                        },
                    ),
                    fuel,
                ),
                None => (Err(VmFault::InvalidLiteral), fuel),
            }
        },
        Opcode::ExitBfr => {
            charge(gas_used, 1);
            if !vm_check_buffer_initialization(buffers, line.args[0].clone()) {
                vm_throw_local_error(buffers, line.args[1].clone());
                return (Ok(next), fuel);
            }
            match number_in(buffers, &line.args[0]) {
                Ok(code) => (
                    Ok(
                        VmInstructionResult {
                            exit_details: Some(
                                VmExitDetails { exit_code: code as i64, gas_used: *gas_used },
                            ),
                            next_pc: 0,
                        },
                    ),
                    fuel,
                ),
                Err(f) => (Err(f), fuel),
            }
        },
        Opcode::Jmp => {
            charge(gas_used, 1);
            match parse_jump_target(&line.args[0]) {
                Ok(t) => (Ok(VmInstructionResult { exit_details: None, next_pc: t }), fuel),
                Err(f) => (Err(f), fuel),
            }
        },
        Opcode::JmpCond => {
            charge(gas_used, 2);
            if !vm_check_buffer_initialization(buffers, line.args[0].clone()) {
                vm_throw_local_error(buffers, line.args[2].clone());
                return (Ok(next), fuel);
            }
            let c = match number_in(buffers, &line.args[0]) {
                Ok(c) => c,
                Err(f) => {
                    return (Err(f), fuel);
                },
            };
            if c == 0 {
                return (Ok(next), fuel);
            }
            match parse_jump_target(&line.args[1]) {
                Ok(t) => (Ok(VmInstructionResult { exit_details: None, next_pc: t }), fuel),
                Err(f) => (Err(f), fuel),
            }
        },
        Opcode::Call => {
            match parse_jump_target(&line.args[0]) {
                Ok(t) => {
                    stack.push(buffers, pc + 1);
                    (Ok(VmInstructionResult { exit_details: None, next_pc: t }), fuel)
                },
                Err(f) => (Err(f), fuel),
            }
        },
        Opcode::Ret => {
            if stack.frames.len() == 0 {
                return (Err(VmFault::EmptyCallStack), fuel);
            }
            let frame = stack.pop();
            let rv = return_value_location();
            let carried = match buffers.get(&rv) {
                Some(v) => Some(copy_bytes(v)),
                None => None,
            };
            *buffers = frame.buffers;
            match carried {
                Some(v) => buffers.insert(rv, v),
                None => {},
            }
            (Ok(VmInstructionResult { exit_details: None, next_pc: frame.origin }), fuel)
        },
        Opcode::Invoke => {
            charge(gas_used, 3);
            if fuel == 0 {
                return (Err(VmFault::StepLimit), 0);
            }
            let location = match parse_u64(line.args[0].as_str()) {
                Some(l) => l,
                None => {
                    return (Err(VmFault::InvalidLiteral), fuel);
                },
            };
            let contents = match blockutil_interface.read_contract(location) {
                Ok(c) => c,
                Err(_) => {
                    return (Err(VmFault::ContractUnavailable), fuel);
                },
            };
            let child_hash = hex_encode(sha256(contents.as_str().as_bytes()).as_slice());
            let mut tree = build_syntax_tree();
            tree.create(contents);
            stack.push(buffers, pc + 1);
            let ghost depth = stack@.len();
            buffers.clear();
            let mut child_pc: usize = 0;
            let (res, left) = vm_run(
                &tree,
                buffers,
                stack,
                state_manager,
                gas_used,
                blockutil_interface,
                &child_hash,
                gas_limit,
                &mut child_pc,
                sender,
                out,
                fuel - 1,
            );
            if let Err(f) = res {
                return (Err(f), left);
            }
            if stack.frames.len() == 0 {
                return (Err(VmFault::EmptyCallStack), left);
            }
            let frame = stack.pop();
            let rv = return_value_location();
            let carried = match buffers.get(&rv) {
                Some(v) => Some(copy_bytes(v)),
                None => None,
            };
            *buffers = frame.buffers;
            match carried {
                Some(v) => buffers.insert(rv, v),
                None => {},
            }
            (Ok(next), left)
        },
        Opcode::Stdout | Opcode::PrintStr | Opcode::Stderr | Opcode::Tx | Opcode::ChainLen
        | Opcode::UpdateState | Opcode::UpdateStateExternal | Opcode::GetFromState
        | Opcode::GetFromStateExternal | Opcode::GetFromStateSync
        | Opcode::GetFromStateExternalSync | Opcode::QueryOracle | Opcode::GetSender => {
            match exec_io_instruction(
                op,
                &line.args,
                buffers,
                blockutil_interface,
                contract_hash,
                gas_used,
                state_manager,
                sender,
                out,
            ) {
                Ok(()) => (Ok(next), fuel),
                Err(f) => (Err(f), fuel),
            }
        },
        _ => {
            match exec_store_instruction(op, &line.args, buffers, gas_used) {
                Ok(()) => (Ok(next), fuel),
                Err(f) => (Err(f), fuel),
            }
        },
    }
}

/// The number of operands an operation always reads.
fn arity_of(op: Opcode) -> (r: usize)
    ensures
        r == arity(op),
{
    match op {
        Opcode::Next | Opcode::Ret | Opcode::Unknown => 0,
        Opcode::Exit | Opcode::InitBfr | Opcode::FreeBfr | Opcode::Jmp | Opcode::Call
        | Opcode::ChainLen | Opcode::Invoke | Opcode::GetSender => 1,
        Opcode::ExitBfr | Opcode::BfrStat | Opcode::Stdout | Opcode::PrintStr | Opcode::Stderr => 2,
        Opcode::CpyBfr | Opcode::BfrLen | Opcode::App | Opcode::Shiftl | Opcode::Shiftr
        | Opcode::JmpCond | Opcode::SetCnst | Opcode::UpdateState | Opcode::UpdateStateExternal
        | Opcode::GetFromState | Opcode::GetFromStateExternal | Opcode::GetFromStateSync
        | Opcode::GetFromStateExternalSync => 3,
        Opcode::Math(m) => if m == MathOperation::Not {
            3
        } else {
            4
        },
        Opcode::Slice | Opcode::Tx | Opcode::QueryOracle => 4,
    }
}

/// Step `k` of a recorded run: the instruction at position `pcs[k]` takes
/// state `k` to state `k + 1` without exiting, with the gas within the limit
/// before it.
pub open spec fn valid_step(
    lines: Seq<LineModel>,
    hash: Seq<char>,
    sender: Seq<u8>,
    pending: Map<Seq<char>, Seq<u8>>,
    limit: i64,
    trace: Seq<MachineModel>,
    pcs: Seq<usize>,
    steps: Seq<VmInstructionResult>,
    k: int,
) -> bool {
    &&& pcs[k] < lines.len()
    &&& pcs[k] < usize::MAX
    &&& trace[k].gas <= limit
    &&& steps[k].exit_details is None
    &&& steps[k].next_pc == pcs[k + 1]
    &&& instruction_step(
        lines[pcs[k] as int],
        pcs[k],
        hash,
        sender,
        pending,
        trace[k],
        trace[k + 1],
        Ok(steps[k]),
    )
}

/// A recorded run: states, their instruction positions, and the step
/// between each state and the next.
pub open spec fn valid_run(
    lines: Seq<LineModel>,
    hash: Seq<char>,
    sender: Seq<u8>,
    pending: Map<Seq<char>, Seq<u8>>,
    limit: i64,
    trace: Seq<MachineModel>,
    pcs: Seq<usize>,
    steps: Seq<VmInstructionResult>,
) -> bool {
    &&& trace.len() >= 1
    &&& pcs.len() == trace.len()
    &&& steps.len() + 1 == trace.len()
    &&& forall|k: int|
        0 <= k < steps.len() ==> #[trigger] valid_step(
            lines,
            hash,
            sender,
            pending,
            limit,
            trace,
            pcs,
            steps,
            k,
        )
}

/// How a recorded run ends in `fin` at `fin_pc`: with an exit instruction,
/// with the gas over the limit before an instruction, or past the last
/// instruction.
pub open spec fn ends_as(
    lines: Seq<LineModel>,
    hash: Seq<char>,
    sender: Seq<u8>,
    pending: Map<Seq<char>, Seq<u8>>,
    limit: i64,
    trace: Seq<MachineModel>,
    pcs: Seq<usize>,
    halt: Halt,
    fin: MachineModel,
    fin_pc: usize,
) -> bool {
    match halt {
        Halt::Exited(d) => pcs.last() < lines.len() && trace.last().gas <= limit && exists|
            res: VmInstructionResult,
        |
            res.exit_details == Some(d) && #[trigger] instruction_step(
                lines[pcs.last() as int],
                pcs.last(),
                hash,
                sender,
                pending,
                trace.last(),
                fin,
                Ok(res),
            ),
        Halt::OutOfGas => fin == trace.last() && fin_pc == pcs.last() && fin.gas > limit && fin_pc
            < lines.len(),
        Halt::Finished => fin == trace.last() && fin_pc == pcs.last() && fin_pc >= lines.len(),
    }
}

/// Running `lines` from `init` at `pc0` can end with `halt` in state `fin`
/// at `fin_pc`: some recorded run leads there.
pub open spec fn run_outcome(
    lines: Seq<LineModel>,
    hash: Seq<char>,
    sender: Seq<u8>,
    pending: Map<Seq<char>, Seq<u8>>,
    limit: i64,
    init: MachineModel,
    pc0: usize,
    halt: Halt,
    fin: MachineModel,
    fin_pc: usize,
) -> bool {
    exists|trace: Seq<MachineModel>, pcs: Seq<usize>, steps: Seq<VmInstructionResult>|
        #[trigger] valid_run(lines, hash, sender, pending, limit, trace, pcs, steps) && trace[0]
            == init && pcs[0] == pc0 && ends_as(
            lines,
            hash,
            sender,
            pending,
            limit,
            trace,
            pcs,
            halt,
            fin,
            fin_pc,
        )
}

/// How a recorded run fails with `f`, leaving `fin`: the instruction after
/// its last state fails with `f`, or the run spends all `fuel` steps, which
/// only a run without a nested `Invoke` counts exactly.
pub open spec fn fails_as(
    lines: Seq<LineModel>,
    hash: Seq<char>,
    sender: Seq<u8>,
    pending: Map<Seq<char>, Seq<u8>>,
    limit: i64,
    trace: Seq<MachineModel>,
    pcs: Seq<usize>,
    steps: Seq<VmInstructionResult>,
    f: VmFault,
    fuel: u64,
    fin: MachineModel,
) -> bool {
    ||| (pcs.last() < lines.len() && trace.last().gas <= limit && instruction_step(
        lines[pcs.last() as int],
        pcs.last(),
        hash,
        sender,
        pending,
        trace.last(),
        fin,
        Err(f),
    ))
    ||| (f == VmFault::StepLimit && (steps.len() == fuel || exists|k: int|
        0 <= k < steps.len() && #[trigger] opcode_of(lines[pcs[k] as int].0) == Opcode::Invoke))
}

/// Running `lines` from `init` at `pc0` on at most `fuel` steps can fail
/// with `f`, leaving `fin`: some recorded run fails so.
pub open spec fn run_failure(
    lines: Seq<LineModel>,
    hash: Seq<char>,
    sender: Seq<u8>,
    pending: Map<Seq<char>, Seq<u8>>,
    limit: i64,
    init: MachineModel,
    pc0: usize,
    f: VmFault,
    fuel: u64,
    fin: MachineModel,
) -> bool {
    exists|trace: Seq<MachineModel>, pcs: Seq<usize>, steps: Seq<VmInstructionResult>|
        #[trigger] valid_run(lines, hash, sender, pending, limit, trace, pcs, steps) && trace[0]
            == init && pcs[0] == pc0 && fails_as(
            lines,
            hash,
            sender,
            pending,
            limit,
            trace,
            pcs,
            steps,
            f,
            fuel,
            fin,
        )
}

/// Whether no recorded step ran a nested contract.
pub open spec fn no_invoke(lines: Seq<LineModel>, pcs: Seq<usize>, n: int) -> bool {
    forall|k: int| 0 <= k < n ==> #[trigger] opcode_of(lines[pcs[k] as int].0) != Opcode::Invoke
}

/// The interpreter loop: runs instructions from `pc` until an exit, the
/// end of the list, or gas beyond the limit before an instruction. It runs
/// at most `fuel` instructions; the second result is the fuel left.
pub fn vm_run<B: State, D: BlockUtilInterface>(
    syntax_tree: &SyntaxTree,
    buffers: &mut BufferStore,
    stack: &mut Stack,
    state_manager: &mut StateManager<B>,
    gas_used: &mut i64,
    blockutil_interface: &mut D,
    contract_hash: &String,
    gas_limit: i64,
    pc: &mut usize,
    sender: &Vec<u8>,
    out: &mut String,
    fuel: u64,
) -> (r: (Result<Halt, VmFault>, u64))
    requires
        old(buffers).wf(),
        old(stack).wf(),
        old(state_manager).wf(),
    ensures
        final(buffers).wf(),
        final(stack).wf(),
        final(state_manager).wf(),
        *final(gas_used) >= *old(gas_used),
        final(state_manager).pending_state@ == old(state_manager).pending_state@,
        r.1 <= fuel,
        r.0 is Ok ==> run_outcome(
            syntax_tree@,
            contract_hash@,
            sender@,
            old(state_manager).pending_state@,
            gas_limit,
            machine(
                old(buffers)@,
                old(stack)@,
                *old(gas_used),
                old(state_manager).cached_state@,
                old(out)@,
            ),
            *old(pc),
            r.0->Ok_0,
            machine(
                final(buffers)@,
                final(stack)@,
                *final(gas_used),
                final(state_manager).cached_state@,
                final(out)@,
            ),
            *final(pc),
        ),
        r.0 is Err ==> run_failure(
            syntax_tree@,
            contract_hash@,
            sender@,
            old(state_manager).pending_state@,
            gas_limit,
            machine(
                old(buffers)@,
                old(stack)@,
                *old(gas_used),
                old(state_manager).cached_state@,
                old(out)@,
            ),
            *old(pc),
            r.0->Err_0,
            fuel,
            machine(
                final(buffers)@,
                final(stack)@,
                *final(gas_used),
                final(state_manager).cached_state@,
                final(out)@,
            ),
        ),
    decreases fuel,
{
    let ghost lines = syntax_tree@;
    let ghost pending = state_manager.pending_state@;
    let ghost init = machine(
        buffers@,
        stack@,
        *gas_used,
        state_manager.cached_state@,
        out@,
    );
    let ghost pc0 = *pc;
    let ghost mut trace: Seq<MachineModel> = seq![init];
    let ghost mut pcs: Seq<usize> = seq![pc0];
    let ghost mut steps: Seq<VmInstructionResult> = Seq::empty();
    let mut fuel_left = fuel;
    while *pc < syntax_tree.lines.len()
        invariant
            buffers.wf(),
            stack.wf(),
            state_manager.wf(),
            lines == syntax_tree@,
            pending == state_manager.pending_state@,
            pending == old(state_manager).pending_state@,
            init == machine(
                old(buffers)@,
                old(stack)@,
                *old(gas_used),
                old(state_manager).cached_state@,
                old(out)@,
            ),
            pc0 == *old(pc),
            *gas_used >= *old(gas_used),
            fuel_left <= fuel,
            valid_run(lines, contract_hash@, sender@, pending, gas_limit, trace, pcs, steps),
            trace[0] == init,
            pcs[0] == pc0,
            trace.last() == machine(
                buffers@,
                stack@,
                *gas_used,
                state_manager.cached_state@,
                out@,
            ),
            pcs.last() == *pc,
            no_invoke(lines, pcs, steps.len() as int) ==> fuel_left + steps.len() == fuel,
        decreases fuel_left,
    {
        if *gas_used > gas_limit {
            assert(ends_as(lines, contract_hash@, sender@, pending, gas_limit, trace, pcs, Halt::OutOfGas, trace.last(), *pc));
            return (Ok(Halt::OutOfGas), fuel_left);
        }
        if fuel_left == 0 {
            proof {
                if !no_invoke(lines, pcs, steps.len() as int) {
                    let k = choose|k: int|
                        0 <= k < steps.len() && !(#[trigger] opcode_of(lines[pcs[k] as int].0)
                            != Opcode::Invoke);
                    assert(opcode_of(lines[pcs[k] as int].0) == Opcode::Invoke);
                }
                assert(fails_as(lines, contract_hash@, sender@, pending, gas_limit, trace, pcs, steps, VmFault::StepLimit, fuel, trace.last()));
            }
            return (Err(VmFault::StepLimit), fuel_left);
        }
        assert(syntax_tree.lines@[*pc as int]@ == lines[*pc as int]);
        let (res, left) = vm_execute_instruction(
            &syntax_tree.lines[*pc],
            buffers,
            blockutil_interface,
            contract_hash,
            *pc,
            gas_used,
            stack,
            state_manager,
            gas_limit,
            sender,
            out,
            fuel_left - 1,
        );
        let ghost post = machine(
            buffers@,
            stack@,
            *gas_used,
            state_manager.cached_state@,
            out@,
        );
        let ghost old_left = fuel_left;
        fuel_left = left;
        match res {
            Err(f) => {
                assert(fails_as(lines, contract_hash@, sender@, pending, gas_limit, trace, pcs, steps, f, fuel, post));
                return (Err(f), fuel_left);
            },
            Ok(step) => {
                let ghost step_copy = step;
                match step.exit_details {
                    Some(d) => {
                        assert(step_copy.exit_details == Some(d));
                        assert(ends_as(lines, contract_hash@, sender@, pending, gas_limit, trace, pcs, Halt::Exited(d), post, *pc));
                        return (Ok(Halt::Exited(d)), fuel_left);
                    },
                    None => {
                        proof {
                            let k = steps.len() as int;
                            let trace2 = trace.push(post);
                            let pcs2 = pcs.push(step_copy.next_pc);
                            let steps2 = steps.push(step_copy);
                            assert forall|j: int| 0 <= j < steps2.len() implies #[trigger] valid_step(
                                lines,
                                contract_hash@,
                                sender@,
                                pending,
                                gas_limit,
                                trace2,
                                pcs2,
                                steps2,
                                j,
                            ) by {
                                if j < k {
                                    assert(valid_step(lines, contract_hash@, sender@, pending, gas_limit, trace, pcs, steps, j));
                                    assert(trace2[j] == trace[j] && trace2[j + 1] == trace[j + 1]);
                                    assert(pcs2[j] == pcs[j] && pcs2[j + 1] == pcs[j + 1]);
                                    assert(steps2[j] == steps[j]);
                                }
                            }
                            if no_invoke(lines, pcs2, steps2.len() as int) {
                                assert forall|j: int| 0 <= j < steps.len() implies #[trigger] opcode_of(
                                    lines[pcs[j] as int].0,
                                ) != Opcode::Invoke by {
                                    assert(pcs2[j] == pcs[j]);
                                    assert(opcode_of(lines[pcs2[j] as int].0) != Opcode::Invoke);
                                }
                                assert(opcode_of(lines[pcs2[k] as int].0) != Opcode::Invoke);
                            }
                            trace = trace2;
                            pcs = pcs2;
                            steps = steps2;
                        }
                        *pc = step.next_pc;
                    },
                }
            },
        }
    }
    assert(ends_as(lines, contract_hash@, sender@, pending, gas_limit, trace, pcs, Halt::Finished, trace.last(), *pc));
    (Ok(Halt::Finished), fuel_left)
}

/// A run of `lines` from `init` at `pc0` ended at `fin_pc` and reports
/// `code` and `gas`; then its cache, `cache`, was flushed in order into the
/// committed tier, leaving it as `tier` and the log as `out`.
pub open spec fn simulated<B: State>(
    lines: Seq<LineModel>,
    hash: Seq<char>,
    sender: Seq<u8>,
    pending: Map<Seq<char>, Seq<u8>>,
    limit: i64,
    init: MachineModel,
    pc0: usize,
    fin_pc: usize,
    code: i64,
    gas: i64,
    cache: Map<Seq<char>, Seq<u8>>,
    tier: B,
    entries: Seq<(Seq<char>, Seq<u8>)>,
    out: Seq<char>,
) -> bool {
    exists|h: Halt, fin: MachineModel, before: B|
        #[trigger] run_outcome(lines, hash, sender, pending, limit, init, pc0, h, fin, fin_pc)
            && (code, gas) == report_spec(h, fin.gas, limit) && fin.cache == cache
            && #[trigger] flushed(before, tier, entries, fin.out, out)
}

/// A run of `lines` from `init` at `pc0` fails with `f`.
pub open spec fn simulate_failed(
    lines: Seq<LineModel>,
    hash: Seq<char>,
    sender: Seq<u8>,
    pending: Map<Seq<char>, Seq<u8>>,
    limit: i64,
    init: MachineModel,
    pc0: usize,
    f: VmFault,
) -> bool {
    exists|fin: MachineModel|
        #[trigger] run_failure(lines, hash, sender, pending, limit, init, pc0, f, STEP_LIMIT, fin)
}

/// The machine a contract starts on: only the empty global error buffer,
/// no call frames, no gas used, and an empty log.
pub open spec fn initial_machine(cache: Map<Seq<char>, Seq<u8>>) -> MachineModel {
    machine(
        Map::<Seq<char>, Seq<u8>>::empty().insert(global_error_address(), Seq::empty()),
        Seq::empty(),
        0,
        cache,
        Seq::empty(),
    )
}

/// Runs a decoded contract from `pc` to its end and flushes the state
/// manager, also when the gas ran out. The result is the exit code and gas
/// that the run's end reports, and the output log.
#[verifier::rlimit(80)]
pub fn vm_simulate<B: State, D: BlockUtilInterface>(
    syntax_tree: SyntaxTree,
    buffers: &mut BufferStore,
    stack: &mut Stack,
    state_manager: &mut StateManager<B>,
    gas_used: &mut i64,
    blockutil_interface: &mut D,
    contract_hash: String,
    gas_limit: i64,
    pc: &mut usize,
    sender: &Vec<u8>,
    out: &mut String,
) -> (r: Result<(i64, i64, String), VmFault>)
    requires
        old(buffers).wf(),
        old(stack).wf(),
        old(state_manager).wf(),
    ensures
        final(state_manager).wf(),
        *final(gas_used) >= *old(gas_used),
        r is Ok ==> r->Ok_0.2@ == final(out)@,
        r is Ok ==> simulated(
            syntax_tree@,
            contract_hash@,
            sender@,
            old(state_manager).pending_state@,
            gas_limit,
            machine(
                old(buffers)@,
                old(stack)@,
                *old(gas_used),
                old(state_manager).cached_state@,
                old(out)@,
            ),
            *old(pc),
            *final(pc),
            r->Ok_0.0,
            r->Ok_0.1,
            final(state_manager).cached_state@,
            final(state_manager).onchain_state,
            final(state_manager).cached_state.entries(),
            final(out)@,
        ),
        r is Err ==> simulate_failed(
            syntax_tree@,
            contract_hash@,
            sender@,
            old(state_manager).pending_state@,
            gas_limit,
            machine(
                old(buffers)@,
                old(stack)@,
                *old(gas_used),
                old(state_manager).cached_state@,
                old(out)@,
            ),
            *old(pc),
            r->Err_0,
        ),
{
    let ghost init = machine(buffers@, stack@, *gas_used, state_manager.cached_state@, out@);
    let ghost pending = state_manager.pending_state@;
    let ghost pc0 = *pc;
    let (res, _) = vm_run(
        &syntax_tree,
        buffers,
        stack,
        state_manager,
        gas_used,
        blockutil_interface,
        &contract_hash,
        gas_limit,
        pc,
        sender,
        out,
        STEP_LIMIT,
    );
    let ghost fin = machine(
        buffers@,
        stack@,
        *gas_used,
        state_manager.cached_state@,
        out@,
    );
    match res {
        Err(f) => {
            assert(run_failure(
                syntax_tree@,
                contract_hash@,
                sender@,
                pending,
                gas_limit,
                init,
                pc0,
                f,
                STEP_LIMIT,
                fin,
            ));
            assert(simulate_failed(syntax_tree@, contract_hash@, sender@, pending, gas_limit, init, pc0, f));
            Err(f)
        },
        Ok(h) => {
            let ghost halt = h;
            let ghost tier = state_manager.onchain_state;
            state_manager.flush(out);
            assert(fin.cache == state_manager.cached_state@);
            let (code, gas) = report(h, *gas_used, gas_limit);
            assert((code, gas) == report_spec(halt, fin.gas, gas_limit));
            assert(simulated(
                syntax_tree@,
                contract_hash@,
                sender@,
                pending,
                gas_limit,
                init,
                pc0,
                *pc,
                code,
                gas,
                state_manager.cached_state@,
                state_manager.onchain_state,
                state_manager.cached_state.entries(),
                out@,
            )) by {
                assert(run_outcome(
                    syntax_tree@,
                    contract_hash@,
                    sender@,
                    pending,
                    gas_limit,
                    init,
                    pc0,
                    halt,
                    fin,
                    *pc,
                ));
            }
            Ok((code, gas, out.clone()))
        },
    }
}

/// Decodes and runs a contract with a fresh machine: only the global error
/// buffer, an empty call stack, no gas used. The result is the exit code and
/// gas that the run's end reports, and the output log.
pub fn run_vm<B: State, D: BlockUtilInterface>(
    contract_contents: String,
    contract_hash: String,
    gas_limit: i64,
    sender: Vec<u8>,
    state_manager: &mut StateManager<B>,
    interface: &mut D,
) -> (r: Result<(i64, i64, String), VmFault>)
    requires
        old(state_manager).wf(),
    ensures
        final(state_manager).wf(),
        r is Ok ==> exists|h: Halt, fin: MachineModel, fin_pc: usize, tier: B|
            #[trigger] run_outcome(
                crate::syntax_tree::decode(contract_contents@),
                contract_hash@,
                sender@,
                old(state_manager).pending_state@,
                gas_limit,
                initial_machine(old(state_manager).cached_state@),
                0,
                h,
                fin,
                fin_pc,
            ) && (r->Ok_0.0, r->Ok_0.1) == report_spec(h, fin.gas, gas_limit) && fin.cache
                == final(state_manager).cached_state@ && #[trigger] flushed(
                tier,
                final(state_manager).onchain_state,
                final(state_manager).cached_state.entries(),
                fin.out,
                r->Ok_0.2@,
            ),
        r is Err ==> exists|fin: MachineModel|
            #[trigger] run_failure(
                crate::syntax_tree::decode(contract_contents@),
                contract_hash@,
                sender@,
                old(state_manager).pending_state@,
                gas_limit,
                initial_machine(old(state_manager).cached_state@),
                0,
                r->Err_0,
                STEP_LIMIT,
                fin,
            ),
{
    let mut tree = build_syntax_tree();
    tree.create(contract_contents);
    assert(tree@ =~= crate::syntax_tree::decode(contract_contents@));
    let mut buffers = ByteMap::new();
    buffers.insert(global_error_location(), Vec::new());
    let mut stack = Stack { frames: Vec::new() };
    assert(stack@ =~= Seq::<(Map<Seq<char>, Seq<u8>>, usize)>::empty());
    let mut pc: usize = 0;
    let mut gas_used: i64 = 0;
    let mut out = String::new();
    let ghost init = machine(buffers@, stack@, gas_used, state_manager.cached_state@, out@);
    assert(init == initial_machine(state_manager.cached_state@)) by {
        assert(buffers@ =~= Map::<Seq<char>, Seq<u8>>::empty().insert(global_error_address(), Seq::empty()));
    }
    vm_simulate(
        tree,
        &mut buffers,
        &mut stack,
        state_manager,
        &mut gas_used,
        interface,
        contract_hash,
        gas_limit,
        &mut pc,
        &sender,
        &mut out,
    )
}

/// Calling a subroutine and returning from it restores the caller's buffer
/// store exactly, except that the callee's return-value buffer, where it has
/// one, replaces the caller's; execution resumes after the call and the
/// call stack is as before.
pub proof fn lemma_call_return_round_trip(
    frames: Seq<(Map<Seq<char>, Seq<u8>>, usize)>,
    caller: Map<Seq<char>, Seq<u8>>,
    callee: Map<Seq<char>, Seq<u8>>,
    pc: usize,
)
    requires
        pc < usize::MAX,
    ensures
        ({
            let pushed = frames.push((caller, (pc + 1) as usize));
            &&& pushed.drop_last() == frames
            &&& pushed.last().1 == pc + 1
            &&& store_after_return(pushed.last().0, callee) == if callee.contains_key(
                return_value_address(),
            ) {
                caller.insert(return_value_address(), callee[return_value_address()])
            } else {
                caller
            }
        }),
{
    assert(frames.push((caller, (pc + 1) as usize)).drop_last() =~= frames);
}

} // verus!
