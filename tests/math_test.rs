use contracts::bytemap::ByteMap;
use contracts::math::{execute_math_operation, MathError, MathOperation};
use contracts::vm::VmFault;

fn number(x: u64) -> Vec<u8> {
    x.to_be_bytes().to_vec()
}

#[test]
fn operations_on_numbers() {
    assert_eq!(MathOperation::Add.execute(u64::MAX, 3), Ok(2));
    assert_eq!(MathOperation::Subtract.execute(1, 2), Ok(u64::MAX));
    assert_eq!(MathOperation::Multiply.execute(1 << 63, 2), Ok(0));
    assert_eq!(MathOperation::Divide.execute(17, 5), Ok(3));
    assert_eq!(MathOperation::Divide.execute(17, 0), Err(MathError::DivisionByZero));
    assert_eq!(MathOperation::Exp.execute(3, 4), Ok(81));
    assert_eq!(MathOperation::Exp.execute(2, 64), Ok(0));
    assert_eq!(MathOperation::Exp.execute(2, (1u64 << 32) + 3), Ok(0));
    assert_eq!(MathOperation::Exp.execute(3, 1u64 << 32), Ok(3u64.wrapping_pow(1 << 16).wrapping_pow(1 << 16)));
    assert_eq!(MathOperation::Exp.execute(7, u64::MAX), Ok((0..64).fold((1u64, 7u64), |(r, b), i| (if (u64::MAX >> i) & 1 == 1 { r.wrapping_mul(b) } else { r }, b.wrapping_mul(b))).0));
    assert_eq!(MathOperation::Modulo.execute(17, 5), Ok(2));
    assert_eq!(MathOperation::Modulo.execute(17, 0), Err(MathError::ModuloByZero));
    assert_eq!(MathOperation::And.execute(0b1100, 0b1010), Ok(0b1000));
    assert_eq!(MathOperation::Or.execute(0b1100, 0b1010), Ok(0b1110));
    assert_eq!(MathOperation::Not.execute(0, 99), Ok(1));
    assert_eq!(MathOperation::Not.execute(5, 0), Ok(0));
    assert_eq!(MathOperation::Eq.execute(4, 4), Ok(1));
    assert_eq!(MathOperation::Less.execute(4, 5), Ok(1));
    assert_eq!(MathOperation::Less.execute(5, 4), Ok(0));
}

#[test]
fn buffers_carry_operands_and_results() {
    let mut buffers = ByteMap::new();
    buffers.insert("a".to_string(), number(6));
    buffers.insert("b".to_string(), number(7));
    buffers.insert("r".to_string(), Vec::new());
    buffers.insert("e".to_string(), Vec::new());
    let r = execute_math_operation(
        MathOperation::Multiply,
        &mut buffers,
        "a".to_string(),
        "b".to_string(),
        "r".to_string(),
        "e".to_string(),
    );
    assert_eq!(r, Ok(()));
    assert_eq!(*buffers.get(&"r".to_string()).unwrap(), number(42));
    let r = execute_math_operation(
        MathOperation::Not,
        &mut buffers,
        "a".to_string(),
        String::new(),
        "r".to_string(),
        "e".to_string(),
    );
    assert_eq!(r, Ok(()));
    assert_eq!(*buffers.get(&"r".to_string()).unwrap(), number(0));
    assert!(buffers.get(&"e".to_string()).unwrap().is_empty());
}

#[test]
fn missing_operands_raise_the_local_error() {
    let mut buffers = ByteMap::new();
    buffers.insert("a".to_string(), number(6));
    buffers.insert("r".to_string(), number(1));
    buffers.insert("e".to_string(), Vec::new());
    let r = execute_math_operation(
        MathOperation::Add,
        &mut buffers,
        "a".to_string(),
        "absent".to_string(),
        "r".to_string(),
        "e".to_string(),
    );
    assert_eq!(r, Ok(()));
    assert_eq!(*buffers.get(&"e".to_string()).unwrap(), vec![1]);
    assert_eq!(*buffers.get(&"r".to_string()).unwrap(), number(1));
}

#[test]
fn malformed_operands_stop_the_machine() {
    let mut buffers = ByteMap::new();
    buffers.insert("a".to_string(), vec![1, 2, 3]);
    buffers.insert("r".to_string(), Vec::new());
    let r = execute_math_operation(
        MathOperation::Not,
        &mut buffers,
        "a".to_string(),
        String::new(),
        "r".to_string(),
        "r".to_string(),
    );
    assert_eq!(r, Err(VmFault::MalformedNumber));
}
