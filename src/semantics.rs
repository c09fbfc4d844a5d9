//! The effect of each buffer instruction on the buffer store, as a function
//! of the store before it. A missing operand buffer is a local error; where
//! an instruction reads a missing buffer as data it reads no bytes.
use crate::buffer::{u64_from_be, u64_to_be};
use crate::codec::{hex_decoding, is_hex_text};
use crate::math::{math_step, MathOperation};
use crate::opcode::Opcode;
use crate::handlers::{gas_after, size_charge};
use crate::vm::{with_local_error, VmFault};
use vstd::prelude::*;

verus! {

/// A buffer store as a map from addresses to contents.
pub type StoreModel = Map<Seq<char>, Seq<u8>>;

/// The number of operands an instruction always reads.
pub open spec fn arity(op: Opcode) -> nat {
    match op {
        Opcode::Next | Opcode::Ret | Opcode::Unknown => 0,
        Opcode::Exit | Opcode::InitBfr | Opcode::FreeBfr | Opcode::Jmp | Opcode::Call
        | Opcode::ChainLen | Opcode::Invoke | Opcode::GetSender => 1,
        Opcode::ExitBfr | Opcode::BfrStat | Opcode::Stdout | Opcode::PrintStr | Opcode::Stderr => 2,
        Opcode::CpyBfr | Opcode::BfrLen | Opcode::App | Opcode::Shiftl | Opcode::Shiftr
        | Opcode::JmpCond | Opcode::SetCnst | Opcode::UpdateState | Opcode::UpdateStateExternal
        | Opcode::GetFromState | Opcode::GetFromStateExternal | Opcode::GetFromStateSync
        | Opcode::GetFromStateExternalSync => 3,
        Opcode::Math(m) => if m == MathOperation::Not {
            3
        } else {
            4
        },
        Opcode::Slice | Opcode::Tx | Opcode::QueryOracle => 4,
    }
}

/// Reading the buffer at `loc` as data: its bytes, or no bytes and a local
/// error at `err`.
pub open spec fn access(m: StoreModel, loc: Seq<char>, err: Seq<char>) -> (Seq<u8>, StoreModel) {
    if m.contains_key(loc) {
        (m[loc], m)
    } else {
        (Seq::empty(), with_local_error(m, err))
    }
}

/// `n` zero bytes.
pub open spec fn zeros(n: nat) -> Seq<u8> {
    Seq::new(n, |i: int| 0u8)
}

/// `CpyBfr src dst err`: copies `src` into `dst`, creating `dst` if needed.
pub open spec fn cpy_spec(m: StoreModel, src: Seq<char>, dst: Seq<char>, err: Seq<char>) -> StoreModel {
    let m1 = if m.contains_key(src) {
        m
    } else {
        with_local_error(m, err)
    };
    let m2 = if m1.contains_key(dst) {
        m1
    } else {
        m1.insert(dst, Seq::empty())
    };
    let (val, m3) = access(m2, src, err);
    m3.insert(dst, val)
}

/// `BfrStat addr dst`: stores whether `addr` exists into `dst`, if it exists.
pub open spec fn stat_spec(m: StoreModel, addr: Seq<char>, dst: Seq<char>) -> StoreModel {
    if m.contains_key(dst) {
        m.insert(
            dst,
            if m.contains_key(addr) {
                seq![1u8]
            } else {
                seq![0u8]
            },
        )
    } else {
        m
    }
}

/// `BfrLen src dst err`: stores the length of `src` as a number into `dst`.
pub open spec fn len_spec(m: StoreModel, src: Seq<char>, dst: Seq<char>, err: Seq<char>) -> StoreModel {
    let m1 = if m.contains_key(src) && m.contains_key(dst) {
        m
    } else {
        with_local_error(m, err)
    };
    let (x, m2) = access(m1, src, err);
    if m2.contains_key(dst) {
        m2.insert(dst, u64_to_be(x.len() as u64))
    } else {
        m2
    }
}

/// `App dst src err`: appends the bytes of `src` to `dst`.
pub open spec fn app_spec(m: StoreModel, dst: Seq<char>, src: Seq<char>, err: Seq<char>) -> StoreModel {
    let m1 = if m.contains_key(dst) && m.contains_key(src) {
        m
    } else {
        with_local_error(m, err)
    };
    let (y, m2) = access(m1, src, err);
    if m2.contains_key(dst) {
        m2.insert(dst, m2[dst] + y)
    } else {
        m2
    }
}

/// `Slice buf start end err`: keeps the bytes of `buf` in `[start, end)`.
pub open spec fn slice_spec(
    m: StoreModel,
    buf: Seq<char>,
    start: Seq<char>,
    end: Seq<char>,
    err: Seq<char>,
) -> Result<StoreModel, VmFault> {
    if !(m.contains_key(buf) && m.contains_key(start) && m.contains_key(end)) {
        Ok(with_local_error(m, err))
    } else if m[start].len() != 8 || m[end].len() != 8 {
        Err(VmFault::MalformedNumber)
    } else {
        let s = u64_from_be(m[start]);
        let e = u64_from_be(m[end]);
        if s <= e && e <= m[buf].len() {
            Ok(m.insert(buf, m[buf].subrange(s as int, e as int)))
        } else {
            Err(VmFault::RangeOutOfBounds)
        }
    }
}

/// `Shiftl buf amount err` and `Shiftr buf amount err`: shifts the bytes of
/// `buf` by `amount` places, filling the vacated end with zeros.
pub open spec fn shift_spec(
    m: StoreModel,
    buf: Seq<char>,
    amount: Seq<char>,
    err_loc: Seq<char>,
    left: bool,
) -> Result<StoreModel, VmFault> {
    if !(m.contains_key(buf) && m.contains_key(amount)) {
        Ok(with_local_error(m, err_loc))
    } else if m[amount].len() != 8 {
        Err(VmFault::MalformedNumber)
    } else {
        let k = u64_from_be(m[amount]);
        let c = m[buf];
        if k > c.len() {
            Err(VmFault::RangeOutOfBounds)
        } else if left {
            Ok(m.insert(buf, c.subrange(k as int, c.len() as int) + zeros(k as nat)))
        } else {
            Ok(m.insert(buf, zeros(k as nat) + c.subrange(0, c.len() - k)))
        }
    }
}

/// `SetCnst buf hex err`: sets `buf` to the bytes of a hexadecimal literal.
pub open spec fn set_cnst_spec(m: StoreModel, buf: Seq<char>, hex: Seq<char>, err: Seq<char>) -> Result<
    StoreModel,
    VmFault,
> {
    if !m.contains_key(buf) {
        Ok(with_local_error(m, err))
    } else if !is_hex_text(hex) {
        Err(VmFault::InvalidHex)
    } else {
        Ok(m.insert(buf, hex_decoding(hex)))
    }
}

/// The effect of an instruction that only works on the buffer store, given
/// its operands; `None` for the other instructions.
pub open spec fn store_step(op: Opcode, args: Seq<Seq<char>>, m: StoreModel) -> Option<
    Result<StoreModel, VmFault>,
> {
    if args.len() < arity(op) {
        None
    } else {
        match op {
            Opcode::InitBfr => Some(Ok(m.insert(args[0], Seq::empty()))),
            Opcode::CpyBfr => Some(Ok(cpy_spec(m, args[0], args[1], args[2]))),
            Opcode::FreeBfr => Some(
                if m.contains_key(args[0]) {
                    Ok(m.remove(args[0]))
                } else if args.len() < 2 {
                    Err(VmFault::MissingOperand)
                } else {
                    Err(VmFault::FreeOfMissingBuffer)
                },
            ),
            Opcode::BfrStat => Some(Ok(stat_spec(m, args[0], args[1]))),
            Opcode::BfrLen => Some(Ok(len_spec(m, args[0], args[1], args[2]))),
            Opcode::Math(o) => Some(
                if o == MathOperation::Not {
                    math_step(o, m, args[0], Seq::empty(), args[1], args[2])
                } else {
                    math_step(o, m, args[0], args[1], args[2], args[3])
                },
            ),
            Opcode::App => Some(Ok(app_spec(m, args[0], args[1], args[2]))),
            Opcode::Slice => Some(slice_spec(m, args[0], args[1], args[2], args[3])),
            Opcode::Shiftl => Some(shift_spec(m, args[0], args[1], args[2], true)),
            Opcode::Shiftr => Some(shift_spec(m, args[0], args[1], args[2], false)),
            Opcode::SetCnst => Some(set_cnst_spec(m, args[0], args[1], args[2])),
            _ => None,
        }
    }
}

/// The bytes `CpyBfr src dst err` copies.
pub open spec fn cpy_value(m: StoreModel, src: Seq<char>, dst: Seq<char>, err: Seq<char>) -> Seq<u8> {
    let m1 = if m.contains_key(src) {
        m
    } else {
        with_local_error(m, err)
    };
    let m2 = if m1.contains_key(dst) {
        m1
    } else {
        m1.insert(dst, Seq::empty())
    };
    access(m2, src, err).0
}

/// The gas of a math operation that succeeds.
pub open spec fn math_cost(o: MathOperation) -> i64 {
    match o {
        MathOperation::Multiply | MathOperation::Divide => 2,
        MathOperation::Exp => 3,
        MathOperation::Eq => 0,
        _ => 1,
    }
}

/// The gas used after a buffer instruction that succeeds, from `g` before
/// it: a fixed cost, and a tenth of a unit per byte that it writes where the
/// instruction charges for size.
pub open spec fn store_gas_after(op: Opcode, args: Seq<Seq<char>>, m: StoreModel, g: i64) -> i64 {
    match op {
        Opcode::InitBfr | Opcode::FreeBfr | Opcode::Shiftl | Opcode::Shiftr => gas_after(g, 2),
        Opcode::BfrStat => gas_after(g, 1),
        Opcode::BfrLen => g,
        Opcode::Math(o) => gas_after(g, math_cost(o)),
        Opcode::CpyBfr => {
            let g1 = if m.contains_key(args[1]) {
                g
            } else {
                gas_after(g, 2)
            };
            let v = cpy_value(m, args[0], args[1], args[2]);
            gas_after(gas_after(g1, size_charge(v.len(), 1)), 2)
        },
        Opcode::App => {
            let m1 = if m.contains_key(args[0]) && m.contains_key(args[1]) {
                m
            } else {
                with_local_error(m, args[2])
            };
            let (y, m2) = access(m1, args[1], args[2]);
            let g1 = if m2.contains_key(args[0]) {
                gas_after(g, size_charge((m2[args[0]] + y).len(), 1))
            } else {
                g
            };
            gas_after(g1, 2)
        },
        Opcode::Slice => if m.contains_key(args[0]) && m.contains_key(args[1]) && m.contains_key(
            args[2],
        ) {
            let len = (u64_from_be(m[args[2]]) - u64_from_be(m[args[1]])) as nat;
            gas_after(gas_after(g, size_charge(len, 1)), 2)
        } else {
            gas_after(g, 2)
        },
        Opcode::SetCnst => if m.contains_key(args[0]) {
            gas_after(gas_after(g, size_charge(hex_decoding(args[1]).len(), 1)), 2)
        } else {
            gas_after(g, 2)
        },
        _ => g,
    }
}

} // verus!
