//! The instruction set: mnemonics and their operations.
use crate::math::MathOperation;
use vstd::prelude::*;

verus! {

/// What an instruction does, by its mnemonic.
#[derive(Debug, Clone, Copy, PartialEq, Eq, Structural)]
pub enum Opcode {
    Next,
    Exit,
    ExitBfr,
    InitBfr,
    CpyBfr,
    FreeBfr,
    BfrStat,
    BfrLen,
    Math(MathOperation),
    App,
    Slice,
    Shiftl,
    Shiftr,
    Jmp,
    JmpCond,
    Call,
    Ret,
    Stdout,
    PrintStr,
    Stderr,
    SetCnst,
    Tx,
    ChainLen,
    UpdateState,
    UpdateStateExternal,
    GetFromState,
    GetFromStateExternal,
    GetFromStateSync,
    GetFromStateExternalSync,
    QueryOracle,
    Invoke,
    GetSender,
    Unknown,
}

/// The operation a mnemonic names.
pub open spec fn opcode_of(cmd: Seq<char>) -> Opcode {
    if cmd == "NEXT"@ {
        Opcode::Next
    } else if cmd == "Exit"@ {
        Opcode::Exit
    } else if cmd == "ExitBfr"@ {
        Opcode::ExitBfr
    } else if cmd == "InitBfr"@ {
        Opcode::InitBfr
    } else if cmd == "CpyBfr"@ {
        Opcode::CpyBfr
    } else if cmd == "FreeBfr"@ {
        Opcode::FreeBfr
    } else if cmd == "BfrStat"@ {
        Opcode::BfrStat
    } else if cmd == "BfrLen"@ {
        Opcode::BfrLen
    } else if cmd == "Add"@ {
        Opcode::Math(MathOperation::Add)
    } else if cmd == "Sub"@ {
        Opcode::Math(MathOperation::Subtract)
    } else if cmd == "Mul"@ {
        Opcode::Math(MathOperation::Multiply)
    } else if cmd == "Div"@ {
        Opcode::Math(MathOperation::Divide)
    } else if cmd == "Exp"@ {
        Opcode::Math(MathOperation::Exp)
    } else if cmd == "Mod"@ {
        Opcode::Math(MathOperation::Modulo)
    } else if cmd == "Less"@ {
        Opcode::Math(MathOperation::Less)
    } else if cmd == "And"@ {
        Opcode::Math(MathOperation::And)
    } else if cmd == "Or"@ {
        Opcode::Math(MathOperation::Or)
    } else if cmd == "Not"@ {
        Opcode::Math(MathOperation::Not)
    } else if cmd == "Eq"@ {
        Opcode::Math(MathOperation::Eq)
    } else if cmd == "App"@ {
        Opcode::App
    } else if cmd == "Slice"@ {
        Opcode::Slice
    } else if cmd == "Shiftl"@ {
        Opcode::Shiftl
    } else if cmd == "Shiftr"@ {
        Opcode::Shiftr
    } else if cmd == "Jmp"@ {
        Opcode::Jmp
    } else if cmd == "JmpCond"@ {
        Opcode::JmpCond
    } else if cmd == "Call"@ {
        Opcode::Call
    } else if cmd == "Ret"@ {
        Opcode::Ret
    } else if cmd == "Stdout"@ {
        Opcode::Stdout
    } else if cmd == "PrintStr"@ {
        Opcode::PrintStr
    } else if cmd == "Stderr"@ {
        Opcode::Stderr
    } else if cmd == "SetCnst"@ {
        Opcode::SetCnst
    } else if cmd == "Tx"@ {
        Opcode::Tx
    } else if cmd == "ChainLen"@ {
        Opcode::ChainLen
    } else if cmd == "UpdateState"@ {
        Opcode::UpdateState
    } else if cmd == "UpdateStateExternal"@ {
        Opcode::UpdateStateExternal
    } else if cmd == "GetFromState"@ {
        Opcode::GetFromState
    } else if cmd == "GetFromStateExternal"@ {
        Opcode::GetFromStateExternal
    } else if cmd == "GetFromStateSync"@ {
        Opcode::GetFromStateSync
    } else if cmd == "GetFromStateExternalSync"@ {
        Opcode::GetFromStateExternalSync
    } else if cmd == "QueryOracle"@ {
        Opcode::QueryOracle
    } else if cmd == "Invoke"@ {
        Opcode::Invoke
    } else if cmd == "GetSender"@ {
        Opcode::GetSender
    } else {
        Opcode::Unknown
    }
}

/// Whether `s` is the word `w`.
fn is_word(s: &str, w: &str) -> (r: bool)
    ensures
        r == (s@ == w@),
{
    let n = s.unicode_len();
    if n != w.unicode_len() {
        return false;
    }
    let mut i: usize = 0;
    while i < n
        invariant
            n == s@.len(),
            n == w@.len(),
            i <= n,
            forall|j: int| 0 <= j < i ==> s@[j] == w@[j],
        decreases n - i,
    {
        if s.get_char(i) != w.get_char(i) {
            return false;
        }
        i = i + 1;
    }
    assert(s@ =~= w@);
    true
}

/// The operation a mnemonic names.
pub fn decode_opcode(cmd: &String) -> (r: Opcode)
    ensures
        r == opcode_of(cmd@),
{
    let c = cmd.as_str();
    if is_word(c, "NEXT") {
        Opcode::Next
    } else if is_word(c, "Exit") {
        Opcode::Exit
    } else if is_word(c, "ExitBfr") {
        Opcode::ExitBfr
    } else if is_word(c, "InitBfr") {
        Opcode::InitBfr
    } else if is_word(c, "CpyBfr") {
        Opcode::CpyBfr
    } else if is_word(c, "FreeBfr") {
        Opcode::FreeBfr
    } else if is_word(c, "BfrStat") {
        Opcode::BfrStat
    } else if is_word(c, "BfrLen") {
        Opcode::BfrLen
    } else if is_word(c, "Add") {
        Opcode::Math(MathOperation::Add)
    } else if is_word(c, "Sub") {
        Opcode::Math(MathOperation::Subtract)
    } else if is_word(c, "Mul") {
        Opcode::Math(MathOperation::Multiply)
    } else if is_word(c, "Div") {
        Opcode::Math(MathOperation::Divide)
    } else if is_word(c, "Exp") {
        Opcode::Math(MathOperation::Exp)
    } else if is_word(c, "Mod") {
        Opcode::Math(MathOperation::Modulo)
    } else if is_word(c, "Less") {
        Opcode::Math(MathOperation::Less)
    } else if is_word(c, "And") {
        Opcode::Math(MathOperation::And)
    } else if is_word(c, "Or") {
        Opcode::Math(MathOperation::Or)
    } else if is_word(c, "Not") {
        Opcode::Math(MathOperation::Not)
    } else if is_word(c, "Eq") {
        Opcode::Math(MathOperation::Eq)
    } else if is_word(c, "App") {
        Opcode::App
    } else if is_word(c, "Slice") {
        Opcode::Slice
    } else if is_word(c, "Shiftl") {
        Opcode::Shiftl
    } else if is_word(c, "Shiftr") {
        Opcode::Shiftr
    } else if is_word(c, "Jmp") {
        Opcode::Jmp
    } else if is_word(c, "JmpCond") {
        Opcode::JmpCond
    } else if is_word(c, "Call") {
        Opcode::Call
    } else if is_word(c, "Ret") {
        Opcode::Ret
    } else if is_word(c, "Stdout") {
        Opcode::Stdout
    } else if is_word(c, "PrintStr") {
        Opcode::PrintStr
    } else if is_word(c, "Stderr") {
        Opcode::Stderr
    } else if is_word(c, "SetCnst") {
        Opcode::SetCnst
    } else if is_word(c, "Tx") {
        Opcode::Tx
    } else if is_word(c, "ChainLen") {
        Opcode::ChainLen
    } else if is_word(c, "UpdateState") {
        Opcode::UpdateState
    } else if is_word(c, "UpdateStateExternal") {
        Opcode::UpdateStateExternal
    } else if is_word(c, "GetFromState") {
        Opcode::GetFromState
    } else if is_word(c, "GetFromStateExternal") {
        Opcode::GetFromStateExternal
    } else if is_word(c, "GetFromStateSync") {
        Opcode::GetFromStateSync
    } else if is_word(c, "GetFromStateExternalSync") {
        Opcode::GetFromStateExternalSync
    } else if is_word(c, "QueryOracle") {
        Opcode::QueryOracle
    } else if is_word(c, "Invoke") {
        Opcode::Invoke
    } else if is_word(c, "GetSender") {
        Opcode::GetSender
    } else {
        Opcode::Unknown
    }
}

} // verus!
