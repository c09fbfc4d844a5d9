use contracts::blockutil::BlockUtilInterface;
use contracts::buffer::Buffer;
use contracts::state::{PendingState, State, StateManager};
use contracts::vm::{
    run_vm, vm_access_buffer, vm_access_buffer_contents, vm_check_buffer_initialization,
    vm_throw_global_error, vm_throw_local_error, BufferStore, VmFault, OUT_OF_GAS_EXIT_CODE,
};

/// A committed tier that records what it is asked to commit.
struct RecordingState {
    writes: Vec<(String, Vec<u8>)>,
    stored: Vec<(String, Vec<u8>)>,
}

impl State for RecordingState {
    fn write(&mut self, location: String, contents: Vec<u8>, out: &mut String) {
        out.push_str(&format!("commit {}\n", location));
        self.writes.push((location, contents));
    }

    fn get(&mut self, location: String) -> Result<Vec<u8>, String> {
        for (k, v) in &self.stored {
            if *k == location {
                return Ok(v.clone());
            }
        }
        Err("missing".to_string())
    }
}

/// A host with a fixed chain length and no contracts.
struct FixedHost;

impl BlockUtilInterface for FixedHost {
    fn read_contract(&mut self, _location: u64) -> Result<String, String> {
        Err("none".to_string())
    }

    fn get_blockchain_len(&mut self) -> u64 {
        42
    }

    fn query_oracle(&mut self, _query_type: u64, query_body: Vec<u8>) -> (Vec<u8>, bool) {
        (query_body.iter().rev().cloned().collect(), true)
    }
}

fn manager() -> StateManager<RecordingState> {
    StateManager::new(
        RecordingState { writes: Vec::new(), stored: Vec::new() },
        PendingState::new(),
    )
}

fn run(contents: &str, gas_limit: i64) -> (Result<(i64, i64, String), VmFault>, StateManager<RecordingState>) {
    let mut sm = manager();
    let mut host = FixedHost;
    let r = run_vm(
        contents.to_string(),
        "00000000000000000000000000000000".to_string(),
        gas_limit,
        b"sender".to_vec(),
        &mut sm,
        &mut host,
    );
    (r, sm)
}

#[test]
fn test_vm_access_buffer_contents() {
    let mut buffers = BufferStore::new();
    buffers.insert("00000000".to_string(), Vec::new());
    let contents =
        vm_access_buffer_contents(&mut buffers, "12341234".to_string(), "00000000".to_string());
    assert_eq!(contents, Vec::<u8>::new());
    if let Some(x) = buffers.get(&"00000000".to_string()) {
        assert_eq!(*x, vec![1]);
    } else {
        panic!("No buffer found at location `00000000`");
    }
    buffers.insert("12341234".to_string(), vec![0, 1, 2, 3]);
    let contents =
        vm_access_buffer_contents(&mut buffers, "12341234".to_string(), "00000000".to_string());
    assert_eq!(contents, vec![0, 1, 2, 3]);
}

#[test]
fn test_vm_access_buffer() {
    let mut buffers = BufferStore::new();
    buffers.insert("00000000".to_string(), Vec::new());
    let buffer = vm_access_buffer(&mut buffers, "12341234".to_string(), "00000000".to_string());
    assert!(buffer.is_none());
    if let Some(x) = buffers.get(&"00000000".to_string()) {
        assert_eq!(*x, vec![1]);
    } else {
        panic!("No buffer found at location `00000000`");
    }
    buffers.insert("12341234".to_string(), vec![0, 1, 2, 3]);
    let buffer: Option<Buffer> =
        vm_access_buffer(&mut buffers, "12341234".to_string(), "00000000".to_string());
    assert_eq!(buffer.unwrap().contents, vec![0, 1, 2, 3]);
}

#[test]
fn test_vm_check_buffer_initialization() {
    let mut buffers = BufferStore::new();
    let initialization = vm_check_buffer_initialization(&buffers, "00000000".to_string());
    assert!(!initialization);
    buffers.insert("12341234".to_string(), Vec::new());
    let initialization = vm_check_buffer_initialization(&buffers, "12341234".to_string());
    assert!(initialization);
}

#[test]
fn test_vm_throw_global_error() {
    let mut buffers = BufferStore::new();
    buffers.insert("00000000".to_string(), Vec::new());
    vm_throw_global_error(&mut buffers);
    let mut found_buffer = false;
    if let Some(x) = buffers.get(&"00000000".to_string()) {
        found_buffer = true;
        assert_eq!(x.len(), 1);
        assert_eq!(x[0], 1);
    }
    assert!(found_buffer);
}

#[test]
fn test_vm_throw_local_error() {
    let mut buffers = BufferStore::new();
    buffers.insert("12341234".to_string(), Vec::new());
    vm_throw_local_error(&mut buffers, "12341234".to_string());
    let mut found_buffer = true;
    if let Some(x) = buffers.get(&"12341234".to_string()) {
        found_buffer = true;
        assert_eq!(x.len(), 1);
        assert_eq!(x[0], 1);
    }
    assert!(found_buffer);
}

#[test]
fn test_vm_exit() {
    let contents = "\
            Exit 1234
        ";
    let (r, _) = run(contents, 1000);
    let (exit_code, gas_used, _) = r.unwrap();
    assert_eq!(exit_code, 1234);
    assert_eq!(gas_used, 1);
}

#[test]
fn test_vm_exit_bfr() {
    let contents = "\
            InitBfr 0x00000001 0x00000000
            SetCnst 0x00000001 0x0000000000000007 0x00000000
            ExitBfr 0x00000001 0x00000000
        ";
    let (r, _) = run(contents, 1000);
    let (exit_code, gas_used, _) = r.unwrap();
    assert_eq!(exit_code, 7);
    // InitBfr costs 2, SetCnst 2 (eight bytes add no size charge), ExitBfr 1.
    assert_eq!(gas_used, 5);
}

#[test]
fn missing_buffer_is_a_local_error_not_a_crash() {
    let mut buffers = BufferStore::new();
    buffers.insert("0000000e".to_string(), vec![7, 7]);
    let contents =
        vm_access_buffer_contents(&mut buffers, "absent".to_string(), "0000000e".to_string());
    assert!(contents.is_empty());
    assert_eq!(*buffers.get(&"0000000e".to_string()).unwrap(), vec![1]);
}

#[test]
fn local_error_without_its_buffer_falls_back_to_global() {
    let mut buffers = BufferStore::new();
    buffers.insert("00000000".to_string(), Vec::new());
    vm_throw_local_error(&mut buffers, "missing!".to_string());
    assert_eq!(*buffers.get(&"00000000".to_string()).unwrap(), vec![1]);
    assert!(!vm_check_buffer_initialization(&buffers, "missing!".to_string()));
}

#[test]
fn call_and_return_restore_the_store_but_carry_the_return_value() {
    let program = "InitBfr 00000001 00000000
SetCnst 00000001 01 00000000
InitBfr 00000002 00000000
SetCnst 00000002 05 00000000
Call 10
Stdout 00000001 00000000
Stdout 00000002 00000000
Exit 0
; subroutine
SetCnst 00000001 02 00000000
SetCnst 00000002 09 00000000
Ret";
    let (r, _) = run(program, 1000);
    let (code, _, out) = r.unwrap();
    assert_eq!(code, 0);
    assert_eq!(out, "[2]\n[5]\n");
}

#[test]
fn return_without_call_stops_the_machine() {
    let (r, _) = run("Ret", 1000);
    assert_eq!(r.unwrap_err(), VmFault::EmptyCallStack);
}

#[test]
fn running_out_of_gas_pins_gas_and_still_flushes() {
    let program = "InitBfr 00000005 00000000
SetCnst 00000005 0000000000000001 00000000
InitBfr 00000006 00000000
SetCnst 00000006 aa 00000000
UpdateState 00000005 00000006 00000000
Jmp 6";
    let (r, sm) = run(program, 20);
    let (code, gas, out) = r.unwrap();
    assert_eq!(code, OUT_OF_GAS_EXIT_CODE);
    assert_eq!(gas, 20);
    assert_eq!(sm.onchain_state.writes.len(), 1);
    assert_eq!(sm.onchain_state.writes[0].0, "000000000000000000000000000000001");
    assert_eq!(sm.onchain_state.writes[0].1, vec![0xaa]);
    assert_eq!(out, "commit 000000000000000000000000000000001\n");
}

#[test]
fn finishing_the_list_exits_with_zero() {
    let (r, _) = run("InitBfr 00000003 00000000\nBfrStat 00000003 00000000", 1000);
    let (code, gas, _) = r.unwrap();
    assert_eq!(code, 0);
    assert_eq!(gas, 3);
}

#[test]
fn unknown_mnemonic_raises_the_global_error_and_continues() {
    let program = "Frobnicate 1 2
Stdout 00000000 00000000
Exit 9";
    let (r, _) = run(program, 1000);
    let (code, _, out) = r.unwrap();
    assert_eq!(code, 9);
    assert_eq!(out, "[1]\n");
}

#[test]
fn arithmetic_wraps_and_division_by_zero_is_local() {
    let program = "InitBfr 0000000a 00000000
SetCnst 0000000a ffffffffffffffff 00000000
InitBfr 0000000b 00000000
SetCnst 0000000b 0000000000000002 00000000
InitBfr 0000000c 00000000
Add 0000000a 0000000b 0000000c 00000000
Stdout 0000000c 00000000
InitBfr 0000000d 00000000
SetCnst 0000000d 0000000000000000 00000000
InitBfr 0000000e 00000000
Div 0000000b 0000000d 0000000c 0000000e
Stdout 0000000e 00000000
Stdout 0000000c 00000000
Exit 0";
    let (r, _) = run(program, 1000);
    let (_, _, out) = r.unwrap();
    assert_eq!(out, "[0, 0, 0, 0, 0, 0, 0, 1]\n[1]\n[0, 0, 0, 0, 0, 0, 0, 1]\n");
}

#[test]
fn modulo_by_zero_stops_the_machine() {
    let program = "InitBfr 0000000a 00000000
SetCnst 0000000a 0000000000000004 00000000
InitBfr 0000000b 00000000
SetCnst 0000000b 0000000000000000 00000000
Mod 0000000a 0000000b 0000000a 00000000";
    let (r, _) = run(program, 1000);
    assert_eq!(r.unwrap_err(), VmFault::ModuloByZero);
}

#[test]
fn jmp_cond_branches_on_nonzero() {
    let program = "InitBfr 0000000a 00000000
SetCnst 0000000a 0000000000000001 00000000
JmpCond 0000000a 5 00000000
Exit 1
Exit 2";
    let (r, _) = run(program, 1000);
    assert_eq!(r.unwrap().0, 2);
    let program = "InitBfr 0000000a 00000000
SetCnst 0000000a 0000000000000000 00000000
JmpCond 0000000a 5 00000000
Exit 1
Exit 2";
    let (r, _) = run(program, 1000);
    assert_eq!(r.unwrap().0, 1);
}

#[test]
fn buffer_editing_instructions() {
    let program = "InitBfr 0000000a 00000000
SetCnst 0000000a 0102030405 00000000
InitBfr 0000000b 00000000
SetCnst 0000000b 0000000000000002 00000000
CpyBfr 0000000a 0000000c 00000000
Shiftl 0000000c 0000000b 00000000
Stdout 0000000c 00000000
CpyBfr 0000000a 0000000d 00000000
Shiftr 0000000d 0000000b 00000000
Stdout 0000000d 00000000
InitBfr 0000000e 00000000
SetCnst 0000000e 0000000000000004 00000000
Slice 0000000a 0000000b 0000000e 00000000
Stdout 0000000a 00000000
App 0000000a 0000000a 00000000
Stdout 0000000a 00000000
BfrLen 0000000a 0000000f 00000000
InitBfr 0000000f 00000000
BfrLen 0000000a 0000000f 00000000
Stdout 0000000f 00000000
Eq 0000000f 0000000e 0000000f 00000000
Stdout 0000000f 00000000
FreeBfr 0000000a
BfrStat 0000000a 0000000f
Stdout 0000000f 00000000
Exit 0";
    let (r, _) = run(program, 1000);
    let (_, _, out) = r.unwrap();
    let expected = "[3, 4, 5, 0, 0]\n[0, 0, 1, 2, 3]\n[3, 4]\n[3, 4, 3, 4]\n[0, 0, 0, 0, 0, 0, 0, 4]\n[0, 0, 0, 0, 0, 0, 0, 1]\n[0]\n";
    assert_eq!(out, expected);
}

#[test]
fn text_transactions_and_host_queries() {
    let program = "InitBfr 00000010 00000000
GetSender 00000010
PrintStr 00000010 00000000
InitBfr 00000011 00000000
ChainLen 00000011
Stdout 00000011 00000000
SetCnst 00000010 0000000000000001 00000000
InitBfr 00000012 00000000
SetCnst 00000012 0102 00000000
InitBfr 00000013 00000000
QueryOracle 00000010 00000012 00000013 00000000
Stdout 00000010 00000000
InitBfr 00000014 00000000
SetCnst 00000014 616c696365 00000000
InitBfr 00000015 00000000
SetCnst 00000015 626f62 00000000
InitBfr 00000016 00000000
SetCnst 00000016 3130 00000000
Tx 00000014 00000015 00000016 00000000
Exit 0";
    let (r, _) = run(program, 1000);
    let (_, _, out) = r.unwrap();
    assert_eq!(out, "sender\n[0, 0, 0, 0, 0, 0, 0, 42]\n[2, 1]\nTX alice bob 10\n");
}

#[test]
fn state_reads_see_earlier_writes_of_the_run() {
    let program = "InitBfr 00000005 00000000
SetCnst 00000005 0000000000000003 00000000
InitBfr 00000006 00000000
SetCnst 00000006 beef 00000000
UpdateState 00000005 00000006 00000000
InitBfr 00000007 00000000
GetFromState 00000005 00000007 00000000
Stdout 00000007 00000000
Exit 0";
    let (r, sm) = run(program, 1000);
    let (_, _, out) = r.unwrap();
    assert_eq!(out, "[190, 239]\ncommit 000000000000000000000000000000003\n");
    assert_eq!(sm.onchain_state.writes.len(), 1);
}

#[test]
fn unreadable_state_stops_the_machine() {
    let program = "InitBfr 00000005 00000000
SetCnst 00000005 0000000000000003 00000000
InitBfr 00000007 00000000
GetFromState 00000005 00000007 00000000";
    let (r, _) = run(program, 1000);
    assert_eq!(r.unwrap_err(), VmFault::StateUnavailable);
}

#[test]
fn invoke_of_an_unknown_contract_stops_the_machine() {
    let (r, _) = run("Invoke 7", 1000);
    assert_eq!(r.unwrap_err(), VmFault::ContractUnavailable);
}

#[test]
fn bad_literals_stop_the_machine() {
    assert_eq!(run("Exit twelve", 1000).0.unwrap_err(), VmFault::InvalidLiteral);
    assert_eq!(run("Jmp 0", 1000).0.unwrap_err(), VmFault::InvalidLiteral);
    assert_eq!(run("Exit", 1000).0.unwrap_err(), VmFault::MissingOperand);
    let program = "InitBfr 00000001 00000000\nSetCnst 00000001 xyz 00000000";
    assert_eq!(run(program, 1000).0.unwrap_err(), VmFault::InvalidHex);
    let program = "InitBfr 00000001 00000000\nExitBfr 00000001 00000000";
    assert_eq!(run(program, 1000).0.unwrap_err(), VmFault::MalformedNumber);
}

#[test]
fn freeing_a_missing_buffer_stops_the_machine() {
    let (r, _) = run("FreeBfr 00000009 00000000", 1000);
    assert_eq!(r.unwrap_err(), VmFault::FreeOfMissingBuffer);
}

#[test]
fn slices_past_the_end_stop_the_machine() {
    let program = "InitBfr 0000000a 00000000
SetCnst 0000000a 0102 00000000
InitBfr 0000000b 00000000
SetCnst 0000000b 0000000000000000 00000000
InitBfr 0000000c 00000000
SetCnst 0000000c 0000000000000003 00000000
Slice 0000000a 0000000b 0000000c 00000000";
    let (r, _) = run(program, 1000);
    assert_eq!(r.unwrap_err(), VmFault::RangeOutOfBounds);
}

#[test]
fn printing_invalid_text_stops_the_machine() {
    let program = "InitBfr 0000000a 00000000
SetCnst 0000000a ff 00000000
PrintStr 0000000a 00000000";
    let (r, _) = run(program, 1000);
    assert_eq!(r.unwrap_err(), VmFault::InvalidText);
}

#[test]
fn jmp_cond_on_a_malformed_condition_stops_the_machine() {
    let program = "InitBfr 0000000a 00000000
SetCnst 0000000a 01 00000000
JmpCond 0000000a 1 00000000";
    let (r, _) = run(program, 1000);
    assert_eq!(r.unwrap_err(), VmFault::MalformedNumber);
}

#[test]
fn append_and_shift_raise_errors_at_their_error_operand() {
    let program = "InitBfr 0000000e 00000000
InitBfr 0000000a 00000000
App 0000000a 00000099 0000000e
Stdout 0000000e 00000000
InitBfr 0000000f 00000000
Shiftr 0000000a 00000098 0000000f
Stdout 0000000f 00000000
Exit 0";
    let (r, _) = run(program, 1000);
    assert_eq!(r.unwrap().2, "[1]\n[1]\n");
}

#[test]
fn comment_lines_count_for_jumps_and_blank_lines_do_not() {
    assert_eq!(run("Jmp 3\n; c\nExit 7\nExit 8", 1000).0.unwrap().0, 7);
    assert_eq!(run("Jmp 3\n\nExit 7\nExit 8", 1000).0.unwrap().0, 8);
}

#[test]
fn out_of_gas_before_the_exit() {
    let (r, _) = run("InitBfr 00000002 00000000\nInitBfr 00000003 00000000\nExit 5", 1);
    let (code, gas, _) = r.unwrap();
    assert_eq!((code, gas), (OUT_OF_GAS_EXIT_CODE, 1));
}
