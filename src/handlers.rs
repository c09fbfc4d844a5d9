//! The buffer instructions: their effects on the store and their gas.
use crate::buffer::{u64_from_be, u64_to_be, Buffer};
use crate::bytemap::copy_bytes;
use crate::codec::hex_decode;
use crate::math::{execute_math_operation, MathOperation};
use crate::opcode::Opcode;
use crate::semantics::{
    access, app_spec, cpy_spec, cpy_value, len_spec, math_cost, set_cnst_spec, shift_spec,
    slice_spec, store_gas_after, store_step, zeros,
};
use crate::vm::{
    vm_access_buffer_contents, vm_check_buffer_initialization, vm_throw_local_error, with_local_error,
    BufferStore, VmFault,
};
use vstd::prelude::*;

verus! {

/// The gas after charging `amount`, saturating at the largest `i64`.
pub open spec fn gas_after(gas: i64, amount: i64) -> i64 {
    if gas > i64::MAX - amount {
        i64::MAX
    } else {
        (gas + amount) as i64
    }
}

/// Charges `amount` of gas, saturating at the largest `i64`.
pub fn charge(gas: &mut i64, amount: i64)
    requires
        amount >= 0,
    ensures
        *final(gas) >= *old(gas),
        *final(gas) == gas_after(*old(gas), amount),
{
    if *gas > i64::MAX - amount {
        *gas = i64::MAX;
    } else {
        *gas = *gas + amount;
    }
}

/// The size charge for `len` bytes at `factor` tenths of a unit per byte,
/// rounded down and saturating.
pub open spec fn size_charge(len: nat, factor: nat) -> i64 {
    if factor * len / 10 > i64::MAX {
        i64::MAX
    } else {
        (factor * len / 10) as i64
    }
}

/// The size charge for `len` bytes at `factor` tenths of a unit per byte.
pub fn size_cost(len: usize, factor: u64) -> (r: i64)
    ensures
        r == size_charge(len as nat, factor as nat),
        r >= 0,
{
    let f: u128 = factor as u128;
    let l: u128 = len as u128;
    assert(f * l <= 0xffff_ffff_ffff_ffff * 0xffff_ffff_ffff_ffff) by (nonlinear_arith)
        requires
            f <= 0xffff_ffff_ffff_ffff,
            l <= 0xffff_ffff_ffff_ffff,
    ;
    let total: u128 = f * l / 10;
    if total > i64::MAX as u128 {
        i64::MAX
    } else {
        total as i64
    }
}

/// The number in a buffer that exists.
pub fn number_in(buffers: &BufferStore, loc: &String) -> (r: Result<u64, VmFault>)
    requires
        buffers.wf(),
        buffers@.contains_key(loc@),
    ensures
        buffers@[loc@].len() == 8 ==> r == Ok::<u64, VmFault>(u64_from_be(buffers@[loc@])),
        buffers@[loc@].len() != 8 ==> r == Err::<u64, VmFault>(VmFault::MalformedNumber),
{
    let b = Buffer { contents: copy_bytes(buffers.get(loc).unwrap()) };
    match b.as_u64() {
        Ok(x) => Ok(x),
        Err(_) => Err(VmFault::MalformedNumber),
    }
}

/// The eight-byte encoding of `x`.
pub fn encoded(x: u64) -> (r: Vec<u8>)
    ensures
        r@ == u64_to_be(x),
{
    let mut b = Buffer { contents: Vec::new() };
    b.load_u64(x);
    b.contents
}

fn exec_cpy(buffers: &mut BufferStore, src: String, dst: String, err: String, gas: &mut i64)
    requires
        old(buffers).wf(),
    ensures
        final(buffers).wf(),
        final(buffers)@ == cpy_spec(old(buffers)@, src@, dst@, err@),
        *final(gas) == gas_after(
            gas_after(
                if old(buffers)@.contains_key(dst@) {
                    *old(gas)
                } else {
                    gas_after(*old(gas), 2)
                },
                size_charge(cpy_value(old(buffers)@, src@, dst@, err@).len(), 1),
            ),
            2,
        ),
{
    if !vm_check_buffer_initialization(buffers, src.clone()) {
        vm_throw_local_error(buffers, err.clone());
    }
    if !vm_check_buffer_initialization(buffers, dst.clone()) {
        buffers.insert(dst.clone(), Vec::new());
        charge(gas, 2);
    }
    let contents = vm_access_buffer_contents(buffers, src, err);
    charge(gas, size_cost(contents.len(), 1));
    buffers.insert(dst, contents);
    charge(gas, 2);
}

fn exec_len(buffers: &mut BufferStore, src: String, dst: String, err: String)
    requires
        old(buffers).wf(),
    ensures
        final(buffers).wf(),
        final(buffers)@ == len_spec(old(buffers)@, src@, dst@, err@),
{
    if !vm_check_buffer_initialization(buffers, src.clone())
        || !vm_check_buffer_initialization(buffers, dst.clone()) {
        vm_throw_local_error(buffers, err.clone());
    }
    let x = vm_access_buffer_contents(buffers, src, err);
    if vm_check_buffer_initialization(buffers, dst.clone()) {
        buffers.insert(dst, encoded(x.len() as u64));
    }
}

fn exec_app(buffers: &mut BufferStore, dst: String, src: String, err: String, gas: &mut i64)
    requires
        old(buffers).wf(),
    ensures
        final(buffers).wf(),
        final(buffers)@ == app_spec(old(buffers)@, dst@, src@, err@),
        ({
            let m = old(buffers)@;
            let m1 = if m.contains_key(dst@) && m.contains_key(src@) {
                m
            } else {
                with_local_error(m, err@)
            };
            let (y, m2) = access(m1, src@, err@);
            *final(gas) == gas_after(
                if m2.contains_key(dst@) {
                    gas_after(*old(gas), size_charge((m2[dst@] + y).len(), 1))
                } else {
                    *old(gas)
                },
                2,
            )
        }),
{
    if !vm_check_buffer_initialization(buffers, dst.clone())
        || !vm_check_buffer_initialization(buffers, src.clone()) {
        vm_throw_local_error(buffers, err.clone());
    }
    let y = vm_access_buffer_contents(buffers, src, err);
    if vm_check_buffer_initialization(buffers, dst.clone()) {
        let mut x = copy_bytes(buffers.get(&dst).unwrap());
        let ghost x0 = x@;
        let mut i: usize = 0;
        while i < y.len()
            invariant
                i <= y@.len(),
                x@ == x0 + y@.subrange(0, i as int),
            decreases y@.len() - i,
        {
            x.push(y[i]);
            i = i + 1;
            assert(x@ =~= x0 + y@.subrange(0, i as int));
        }
        assert(y@.subrange(0, y@.len() as int) =~= y@);
        charge(gas, size_cost(x.len(), 1));
        buffers.insert(dst, x);
    }
    charge(gas, 2);
}

fn exec_slice(
    buffers: &mut BufferStore,
    buf: String,
    start: String,
    end: String,
    err: String,
    gas: &mut i64,
) -> (r: Result<(), VmFault>)
    requires
        old(buffers).wf(),
    ensures
        final(buffers).wf(),
        match slice_spec(old(buffers)@, buf@, start@, end@, err@) {
            Ok(m) => r is Ok && final(buffers)@ == m,
            Err(f) => r == Err::<(), VmFault>(f),
        },
        *final(gas) >= *old(gas),
        r is Ok ==> *final(gas) == store_gas_after(
            Opcode::Slice,
            seq![buf@, start@, end@, err@],
            old(buffers)@,
            *old(gas),
        ),
{
    if !vm_check_buffer_initialization(buffers, buf.clone()) || !vm_check_buffer_initialization(
        buffers,
        start.clone(),
    ) || !vm_check_buffer_initialization(buffers, end.clone()) {
        vm_throw_local_error(buffers, err);
        charge(gas, 2);
        return Ok(());
    }
    let s = number_in(buffers, &start)?;
    let e = number_in(buffers, &end)?;
    let c = copy_bytes(buffers.get(&buf).unwrap());
    if s > e || e > c.len() as u64 {
        return Err(VmFault::RangeOutOfBounds);
    }
    let mut out: Vec<u8> = Vec::new();
    let mut i: usize = s as usize;
    while i < e as usize
        invariant
            s <= i <= e <= c@.len(),
            out@ == c@.subrange(s as int, i as int),
        decreases e - i,
    {
        out.push(c[i]);
        i = i + 1;
        assert(out@ =~= c@.subrange(s as int, i as int));
    }
    charge(gas, size_cost(out.len(), 1));
    buffers.insert(buf, out);
    charge(gas, 2);
    Ok(())
}

fn exec_shift(
    buffers: &mut BufferStore,
    buf: String,
    amount: String,
    err_loc: String,
    left: bool,
    gas: &mut i64,
) -> (r: Result<(), VmFault>)
    requires
        old(buffers).wf(),
    ensures
        final(buffers).wf(),
        match shift_spec(old(buffers)@, buf@, amount@, err_loc@, left) {
            Ok(m) => r is Ok && final(buffers)@ == m,
            Err(f) => r == Err::<(), VmFault>(f),
        },
        *final(gas) >= *old(gas),
        r is Ok ==> *final(gas) == gas_after(*old(gas), 2),
{
    if !vm_check_buffer_initialization(buffers, buf.clone())
        || !vm_check_buffer_initialization(buffers, amount.clone()) {
        vm_throw_local_error(buffers, err_loc);
        charge(gas, 2);
        return Ok(());
    }
    let k = number_in(buffers, &amount)?;
    let c = copy_bytes(buffers.get(&buf).unwrap());
    let n = c.len();
    if k > n as u64 {
        return Err(VmFault::RangeOutOfBounds);
    }
    let k = k as usize;
    let ghost expected = if left {
        c@.subrange(k as int, n as int) + zeros(k as nat)
    } else {
        zeros(k as nat) + c@.subrange(0, n - k)
    };
    let mut out: Vec<u8> = Vec::new();
    let mut i: usize = 0;
    while i < n
        invariant
            n == c@.len(),
            k <= n,
            i <= n,
            expected.len() == n,
            expected == if left {
                c@.subrange(k as int, n as int) + zeros(k as nat)
            } else {
                zeros(k as nat) + c@.subrange(0, n - k)
            },
            out@ == expected.subrange(0, i as int),
        decreases n - i,
    {
        let byte: u8 = if left {
            if i < n - k {
                c[i + k]
            } else {
                0
            }
        } else {
            if i < k {
                0
            } else {
                c[i - k]
            }
        };
        assert(byte == expected[i as int]);
        out.push(byte);
        i = i + 1;
        assert(out@ =~= expected.subrange(0, i as int));
    }
    assert(expected.subrange(0, n as int) =~= expected);
    buffers.insert(buf, out);
    charge(gas, 2);
    Ok(())
}

fn exec_set_cnst(buffers: &mut BufferStore, buf: String, hex: String, err: String, gas: &mut i64) -> (r:
    Result<(), VmFault>)
    requires
        old(buffers).wf(),
    ensures
        final(buffers).wf(),
        match set_cnst_spec(old(buffers)@, buf@, hex@, err@) {
            Ok(m) => r is Ok && final(buffers)@ == m,
            Err(f) => r == Err::<(), VmFault>(f),
        },
        *final(gas) >= *old(gas),
        r is Ok ==> *final(gas) == store_gas_after(
            Opcode::SetCnst,
            seq![buf@, hex@, err@],
            old(buffers)@,
            *old(gas),
        ),
{
    if !vm_check_buffer_initialization(buffers, buf.clone()) {
        vm_throw_local_error(buffers, err);
        charge(gas, 2);
        return Ok(());
    }
    match hex_decode(hex.as_str()) {
        Ok(bytes) => {
            charge(gas, size_cost(bytes.len(), 1));
            buffers.insert(buf, bytes);
            charge(gas, 2);
            Ok(())
        },
        Err(_) => Err(VmFault::InvalidHex),
    }
}

/// Runs an instruction that only works on the buffer store, given at least
/// as many operands as it always reads, and charges its gas.
pub fn exec_store_instruction(
    op: Opcode,
    args: &Vec<String>,
    buffers: &mut BufferStore,
    gas: &mut i64,
) -> (r: Result<(), VmFault>)
    requires
        old(buffers).wf(),
        store_step(op, args@.map_values(|s: String| s@), old(buffers)@) is Some,
    ensures
        final(buffers).wf(),
        *final(gas) >= *old(gas),
        match store_step(op, args@.map_values(|s: String| s@), old(buffers)@)->0 {
            Ok(m) => r is Ok && final(buffers)@ == m,
            Err(f) => r == Err::<(), VmFault>(f),
        },
        r is Ok ==> *final(gas) == store_gas_after(
            op,
            args@.map_values(|s: String| s@),
            old(buffers)@,
            *old(gas),
        ),
{
    let ghost av = args@.map_values(|s: String| s@);
    assert(forall|i: int| 0 <= i < args@.len() ==> av[i] == #[trigger] args@[i]@);
    match op {
        Opcode::InitBfr => {
            buffers.insert(args[0].clone(), Vec::new());
            charge(gas, 2);
            Ok(())
        },
        Opcode::CpyBfr => {
            exec_cpy(buffers, args[0].clone(), args[1].clone(), args[2].clone(), gas);
            Ok(())
        },
        Opcode::FreeBfr => {
            if vm_check_buffer_initialization(buffers, args[0].clone()) {
                let _ = buffers.remove(&args[0]);
                charge(gas, 2);
                Ok(())
            } else if args.len() < 2 {
                Err(VmFault::MissingOperand)
            } else {
                Err(VmFault::FreeOfMissingBuffer)
            }
        },
        Opcode::BfrStat => {
            let status = vm_check_buffer_initialization(buffers, args[0].clone());
            if vm_check_buffer_initialization(buffers, args[1].clone()) {
                let mut v: Vec<u8> = Vec::new();
                v.push(if status { 1 } else { 0 });
                proof {
                    if status {
                        assert(v@ =~= seq![1u8]);
                    } else {
                        assert(v@ =~= seq![0u8]);
                    }
                }
                buffers.insert(args[1].clone(), v);
            }
            charge(gas, 1);
            Ok(())
        },
        Opcode::BfrLen => {
            exec_len(buffers, args[0].clone(), args[1].clone(), args[2].clone());
            Ok(())
        },
        Opcode::Math(o) => {
            let r = if o == MathOperation::Not {
                execute_math_operation(
                    o,
                    buffers,
                    args[0].clone(),
                    String::new(),
                    args[1].clone(),
                    args[2].clone(),
                )
            } else {
                execute_math_operation(
                    o,
                    buffers,
                    args[0].clone(),
                    args[1].clone(),
                    args[2].clone(),
                    args[3].clone(),
                )
            };
            if r.is_ok() {
                let cost: i64 = match o {
                    MathOperation::Multiply | MathOperation::Divide => 2,
                    MathOperation::Exp => 3,
                    MathOperation::Eq => 0,
                    _ => 1,
                };
                assert(cost == math_cost(o));
                charge(gas, cost);
            }
            r
        },
        Opcode::App => {
            exec_app(buffers, args[0].clone(), args[1].clone(), args[2].clone(), gas);
            Ok(())
        },
        Opcode::Slice => exec_slice(
            buffers,
            args[0].clone(),
            args[1].clone(),
            args[2].clone(),
            args[3].clone(),
            gas,
        ),
        Opcode::Shiftl => exec_shift(
            buffers,
            args[0].clone(),
            args[1].clone(),
            args[2].clone(),
            true,
            gas,
        ),
        Opcode::Shiftr => exec_shift(
            buffers,
            args[0].clone(),
            args[1].clone(),
            args[2].clone(),
            false,
            gas,
        ),
        Opcode::SetCnst => exec_set_cnst(
            buffers,
            args[0].clone(),
            args[1].clone(),
            args[2].clone(),
            gas,
        ),
        _ => Ok(()),
    }
}

} // verus!
