//! The arithmetic and logic operations on numeric buffers.
use crate::buffer::{u64_from_be, u64_to_be, Buffer};
use crate::vm::{
    vm_check_buffer_initialization, vm_throw_local_error, with_local_error, BufferStore, VmFault,
};
use vstd::arithmetic::power::pow;
use vstd::prelude::*;

verus! {

/// A binary or unary operation on 64-bit unsigned integers.
#[derive(Debug, Clone, Copy, PartialEq, Eq, Structural)]
pub enum MathOperation {
    Add,
    Subtract,
    Multiply,
    Divide,
    Exp,
    Modulo,
    And,
    Or,
    Not,
    Eq,
    Less,
}

/// Why an operation has no result.
#[derive(Debug, Clone, Copy, PartialEq, Eq, Structural)]
pub enum MathError {
    DivisionByZero,
    ModuloByZero,
}

/// The boolean encoding: 1 for true, 0 for false.
pub open spec fn bool_value(b: bool) -> u64 {
    if b {
        1
    } else {
        0
    }
}

/// `a` to the power `e`, wrapped to 64 bits.
pub open spec fn wrapping_pow_spec(a: u64, e: u64) -> u64 {
    (pow(a as int, e as nat) % 0x1_0000_0000_0000_0000) as u64
}

impl MathOperation {
    /// Whether the operation reads a second operand.
    pub open spec fn is_binary(self) -> bool {
        self != MathOperation::Not
    }

    /// What the operation gives on `a` and `b`; a unary one ignores `b`.
    pub open spec fn spec_execute(self, a: u64, b: u64) -> Result<u64, MathError> {
        match self {
            MathOperation::Add => Ok(a.wrapping_add(b)),
            MathOperation::Subtract => Ok(a.wrapping_sub(b)),
            MathOperation::Multiply => Ok(a.wrapping_mul(b)),
            MathOperation::Divide => if b == 0 {
                Err(MathError::DivisionByZero)
            } else {
                Ok(a / b)
            },
            MathOperation::Exp => Ok(wrapping_pow_spec(a, b)),
            MathOperation::Modulo => if b == 0 {
                Err(MathError::ModuloByZero)
            } else {
                Ok(a % b)
            },
            MathOperation::And => Ok(a & b),
            MathOperation::Or => Ok(a | b),
            MathOperation::Not => Ok(bool_value(a == 0)),
            MathOperation::Eq => Ok(bool_value(a == b)),
            MathOperation::Less => Ok(bool_value(a < b)),
        }
    }

    /// Applies the operation.
    pub fn execute(&self, a: u64, b: u64) -> (r: Result<u64, MathError>)
        ensures
            r == self.spec_execute(a, b),
    {
        match self {
            MathOperation::Add => Ok(a.wrapping_add(b)),
            MathOperation::Subtract => Ok(a.wrapping_sub(b)),
            MathOperation::Multiply => Ok(a.wrapping_mul(b)),
            MathOperation::Divide => {
                if b == 0 {
                    Err(MathError::DivisionByZero)
                } else {
                    Ok(a / b)
                }
            },
            MathOperation::Exp => Ok(wrapping_pow(a, b)),
            MathOperation::Modulo => {
                if b == 0 {
                    Err(MathError::ModuloByZero)
                } else {
                    Ok(a % b)
                }
            },
            MathOperation::And => Ok(a & b),
            MathOperation::Or => Ok(a | b),
            MathOperation::Not => Ok(if a == 0 { 1 } else { 0 }),
            MathOperation::Eq => Ok(if a == b { 1 } else { 0 }),
            MathOperation::Less => Ok(if a < b { 1 } else { 0 }),
        }
    }
}

/// `a * b` wrapped to 64 bits.
fn mul_wrapped(a: u64, b: u64) -> (r: u64)
    ensures
        r as int == (a as int * b as int) % 0x1_0000_0000_0000_0000,
{
    let x: u128 = a as u128;
    let y: u128 = b as u128;
    assert(x * y <= 0xffff_ffff_ffff_ffff * 0xffff_ffff_ffff_ffff) by (nonlinear_arith)
        requires
            x <= 0xffff_ffff_ffff_ffff,
            y <= 0xffff_ffff_ffff_ffff,
    ;
    ((x * y) % 0x1_0000_0000_0000_0000) as u64
}

/// `a` to the power `e`, wrapped to 64 bits, by repeated squaring.
fn wrapping_pow(a: u64, e: u64) -> (r: u64)
    ensures
        r == wrapping_pow_spec(a, e),
{
    let ghost m: int = 0x1_0000_0000_0000_0000;
    let mut result: u64 = 1;
    let mut base: u64 = a;
    let mut k: u64 = e;
    proof {
        vstd::arithmetic::power::lemma_pow0(a as int);
        assert((1 * pow(a as int, e as nat)) % m == pow(a as int, e as nat) % m);
    }
    while k > 0
        invariant
            m == 0x1_0000_0000_0000_0000,
            (result as int * pow(base as int, k as nat)) % m == pow(a as int, e as nat) % m,
        decreases k,
    {
        let ghost (r0, b0, k0) = (result as int, base as int, k as nat);
        let half: u64 = k / 2;
        proof {
            let kh = half as nat;
            vstd::arithmetic::power::lemma_pow_multiplies(b0, 2, kh);
            vstd::arithmetic::power::lemma_square_is_pow2(b0);
            vstd::arithmetic::power::lemma_pow_mod_noop(b0 * b0, kh, m);
            if k % 2 == 1 {
                vstd::arithmetic::power::lemma_pow_adds(b0, 1, 2 * kh);
                vstd::arithmetic::power::lemma_pow1(b0);
                assert(k0 == 1 + 2 * kh);
                assert(pow(b0, k0) == b0 * pow(b0 * b0, kh));
                vstd::arithmetic::div_mod::lemma_mul_mod_noop_general(r0 * b0, pow(b0 * b0, kh), m);
                vstd::arithmetic::div_mod::lemma_mul_mod_noop_general(r0 * b0, pow((b0 * b0) % m, kh), m);
                assert(r0 * pow(b0, k0) == (r0 * b0) * pow(b0 * b0, kh)) by (nonlinear_arith)
                    requires
                        pow(b0, k0) == b0 * pow(b0 * b0, kh),
                ;
            } else {
                assert(k0 == 2 * kh);
                vstd::arithmetic::div_mod::lemma_mul_mod_noop_general(r0, pow(b0 * b0, kh), m);
                vstd::arithmetic::div_mod::lemma_mul_mod_noop_general(r0, pow((b0 * b0) % m, kh), m);
            }
        }
        if k % 2 == 1 {
            result = mul_wrapped(result, base);
        }
        base = mul_wrapped(base, base);
        k = half;
    }
    proof {
        vstd::arithmetic::power::lemma_pow0(base as int);
        assert(result as int * pow(base as int, 0) == result as int);
        assert((result as int) % m == result as int);
    }
    result
}

/// The store after an operation on the buffers at `a` and `b` into the
/// buffer at `res`, with `err` for local errors. A missing buffer or a
/// division by zero is a local error and changes nothing else; an operand
/// that is no eight-byte number, or a modulo by zero, stops the machine.
pub open spec fn math_step(
    op: MathOperation,
    m: Map<Seq<char>, Seq<u8>>,
    a: Seq<char>,
    b: Seq<char>,
    res: Seq<char>,
    err: Seq<char>,
) -> Result<Map<Seq<char>, Seq<u8>>, VmFault> {
    if !(m.contains_key(a) && (!op.is_binary() || m.contains_key(b)) && m.contains_key(res)) {
        Ok(with_local_error(m, err))
    } else if m[a].len() != 8 || (op.is_binary() && m[b].len() != 8) {
        Err(VmFault::MalformedNumber)
    } else {
        let y = if op.is_binary() {
            u64_from_be(m[b])
        } else {
            0
        };
        match op.spec_execute(u64_from_be(m[a]), y) {
            Ok(v) => Ok(m.insert(res, u64_to_be(v))),
            Err(MathError::DivisionByZero) => Ok(with_local_error(m, err)),
            Err(MathError::ModuloByZero) => Err(VmFault::ModuloByZero),
        }
    }
}

/// Reads the number in the buffer at `loc`, which exists.
fn read_number(buffers: &BufferStore, loc: &String) -> (r: Result<u64, VmFault>)
    requires
        buffers.wf(),
        buffers@.contains_key(loc@),
    ensures
        r is Ok <==> buffers@[loc@].len() == 8,
        r is Ok ==> r->Ok_0 == u64_from_be(buffers@[loc@]),
        r is Err ==> r->Err_0 == VmFault::MalformedNumber,
{
    let v = buffers.get(loc).unwrap();
    if v.len() != 8 {
        return Err(VmFault::MalformedNumber);
    }
    let b = Buffer { contents: crate::bytemap::copy_bytes(v) };
    match b.as_u64() {
        Ok(x) => Ok(x),
        Err(_) => Err(VmFault::MalformedNumber),
    }
}

/// Applies `operation` to the buffers at `a` and `b` (only `a` for `Not`)
/// and stores the result at `res`, raising local errors at `err`.
pub fn execute_math_operation(
    operation: MathOperation,
    buffers: &mut BufferStore,
    a: String,
    b: String,
    res: String,
    err: String,
) -> (r: Result<(), VmFault>)
    requires
        old(buffers).wf(),
    ensures
        final(buffers).wf(),
        match math_step(operation, old(buffers)@, a@, b@, res@, err@) {
            Ok(m) => r is Ok && final(buffers)@ == m,
            Err(f) => r == Err::<(), VmFault>(f),
        },
{
    let status_a = vm_check_buffer_initialization(buffers, a.clone());
    let mut status_b = true;
    if operation != MathOperation::Not {
        status_b = vm_check_buffer_initialization(buffers, b.clone());
    }
    let status_res = vm_check_buffer_initialization(buffers, res.clone());
    if !status_a || !status_b || !status_res {
        vm_throw_local_error(buffers, err);
        return Ok(());
    }
    let x = read_number(buffers, &a)?;
    let mut y: u64 = 0;
    if operation != MathOperation::Not {
        y = read_number(buffers, &b)?;
    }
    match operation.execute(x, y) {
        Ok(v) => {
            let mut out = Buffer { contents: Vec::new() };
            out.load_u64(v);
            buffers.insert(res, out.contents);
            Ok(())
        },
        Err(MathError::DivisionByZero) => {
            vm_throw_local_error(buffers, err);
            Ok(())
        },
        Err(MathError::ModuloByZero) => Err(VmFault::ModuloByZero),
    }
}

} // verus!
