use rlox::chunk::Chunk;
use rlox::chunk::Opcode;
use rlox::vm::CompileError;
use rlox::vm::FaultKind;
use rlox::vm::InterpretError;
use rlox::vm::RunAction;
use rlox::vm::RuntimeError;
use rlox::vm::VirtualMachine;

/// Drives the machine to completion, computing the binary arithmetic the
/// machine pauses for, exactly as a host is meant to.
fn run_to_completion(vm: &mut VirtualMachine, chunk: &Chunk) -> Result<f64, RuntimeError> {
    loop {
        match vm.run(chunk)? {
            RunAction::Return(value) => return Ok(f64::from_bits(value)),
            RunAction::Binary(op, a, b) => {
                let x = f64::from_bits(a);
                let y = f64::from_bits(b);
                let result = match op {
                    Opcode::Add => x + y,
                    Opcode::Subtract => x - y,
                    Opcode::Multiply => x * y,
                    Opcode::Divide => x / y,
                    _ => panic!("the machine pauses only on binary instructions"),
                };
                vm.push(result.to_bits())?;
            },
        }
    }
}

fn constant_chunk(values: &[f64]) -> Chunk {
    let mut chunk = Chunk::new();
    for v in values {
        let index = chunk.add_constant(v.to_bits()).unwrap();
        chunk.write(0, 1);
        chunk.write(index, 1);
    }
    chunk
}

#[test]
fn push_then_pop_returns_the_value_unchanged() {
    let samples = [
        0.0f64,
        -0.0,
        1.5,
        -2.25,
        f64::MAX,
        f64::MIN_POSITIVE,
        f64::INFINITY,
        f64::NEG_INFINITY,
    ];
    let mut vm = VirtualMachine::new();
    for v in samples {
        vm.init();
        vm.push(v.to_bits()).unwrap();
        assert_eq!(vm.pop().unwrap(), v.to_bits());
    }
    // A NaN round-trips bit for bit as well.
    vm.init();
    let nan_bits = f64::NAN.to_bits();
    vm.push(nan_bits).unwrap();
    assert_eq!(vm.pop().unwrap(), nan_bits);
}

#[test]
fn the_257th_push_overflows_and_an_empty_pop_underflows() {
    let mut vm = VirtualMachine::new();
    vm.init();
    for i in 0..256u32 {
        assert!(vm.push((i as f64).to_bits()).is_ok());
    }
    assert_eq!(
        vm.push(1.0f64.to_bits()),
        Err(RuntimeError { kind: FaultKind::StackOverflow })
    );
    vm.init();
    assert_eq!(vm.pop(), Err(RuntimeError { kind: FaultKind::StackUnderflow }));
}

#[test]
fn addition_end_to_end() {
    let mut chunk = constant_chunk(&[1.2, 3.4]);
    chunk.write(1, 2); // Add
    chunk.write(6, 2); // Return
    let mut vm = VirtualMachine::new();
    vm.init();
    let result = run_to_completion(&mut vm, &chunk).unwrap();
    assert_eq!(result, 1.2 + 3.4);
}

#[test]
fn add_divide_negate_end_to_end() {
    let mut chunk = constant_chunk(&[1.2, 3.4]);
    chunk.write(1, 1); // Add
    let index = chunk.add_constant(5.4f64.to_bits()).unwrap();
    chunk.write(0, 1);
    chunk.write(index, 1);
    chunk.write(4, 1); // Divide
    chunk.write(5, 1); // Negate
    chunk.write(6, 1); // Return
    let mut vm = VirtualMachine::new();
    vm.init();
    let result = run_to_completion(&mut vm, &chunk).unwrap();
    assert_eq!(result, -((1.2 + 3.4) / 5.4));
}

#[test]
fn division_by_zero_yields_infinity_not_a_fault() {
    let mut chunk = constant_chunk(&[5.0, 0.0]);
    chunk.write(4, 1); // Divide
    chunk.write(6, 1); // Return
    let mut vm = VirtualMachine::new();
    vm.init();
    let result = run_to_completion(&mut vm, &chunk).unwrap();
    assert_eq!(result, f64::INFINITY);
}

#[test]
fn negation_flips_the_sign_of_zero() {
    let mut chunk = constant_chunk(&[0.0]);
    chunk.write(5, 1); // Negate
    chunk.write(6, 1); // Return
    let mut vm = VirtualMachine::new();
    vm.init();
    let result = run_to_completion(&mut vm, &chunk).unwrap();
    assert_eq!(result.to_bits(), (-0.0f64).to_bits());
}

#[test]
fn an_unknown_opcode_byte_faults_as_invalid_instruction() {
    for byte in [7u8, 42, 255] {
        let mut chunk = Chunk::new();
        chunk.write(byte, 1);
        let mut vm = VirtualMachine::new();
        vm.init();
        assert_eq!(
            run_to_completion(&mut vm, &chunk),
            Err(RuntimeError { kind: FaultKind::InvalidInstruction })
        );
    }
}

#[test]
fn running_past_the_end_of_code_faults() {
    let chunk = Chunk::new();
    let mut vm = VirtualMachine::new();
    vm.init();
    assert_eq!(
        run_to_completion(&mut vm, &chunk),
        Err(RuntimeError { kind: FaultKind::InvalidInstruction })
    );
}

#[test]
fn a_constant_index_past_the_pool_faults() {
    let mut chunk = Chunk::new();
    chunk.write(0, 1); // Constant
    chunk.write(3, 1); // index 3, but the pool is empty
    let mut vm = VirtualMachine::new();
    vm.init();
    assert_eq!(
        run_to_completion(&mut vm, &chunk),
        Err(RuntimeError { kind: FaultKind::InvalidConstant })
    );
}

#[test]
fn a_missing_constant_operand_faults() {
    let mut chunk = Chunk::new();
    chunk.write(0, 1); // Constant with no operand byte
    let mut vm = VirtualMachine::new();
    vm.init();
    assert_eq!(
        run_to_completion(&mut vm, &chunk),
        Err(RuntimeError { kind: FaultKind::InvalidConstant })
    );
}

#[test]
fn binary_arithmetic_on_a_short_stack_underflows() {
    let mut chunk = constant_chunk(&[1.0]);
    chunk.write(1, 1); // Add with one operand
    let mut vm = VirtualMachine::new();
    vm.init();
    assert_eq!(
        run_to_completion(&mut vm, &chunk),
        Err(RuntimeError { kind: FaultKind::StackUnderflow })
    );
}

#[test]
fn return_on_an_empty_stack_underflows() {
    let mut chunk = Chunk::new();
    chunk.write(6, 1); // Return with nothing to return
    let mut vm = VirtualMachine::new();
    vm.init();
    assert_eq!(
        run_to_completion(&mut vm, &chunk),
        Err(RuntimeError { kind: FaultKind::StackUnderflow })
    );
}

#[test]
fn operands_are_handed_out_in_push_order() {
    let mut chunk = constant_chunk(&[10.0, 4.0]);
    chunk.write(2, 1); // Subtract
    chunk.write(6, 1); // Return
    let mut vm = VirtualMachine::new();
    vm.init();
    let result = run_to_completion(&mut vm, &chunk).unwrap();
    assert_eq!(result, 6.0);
}

#[test]
fn interpret_scans_and_reports_success() {
    let mut vm = VirtualMachine::new();
    vm.init();
    assert!(vm.interpret(b"print 1 + 2;").is_ok());
}

#[test]
fn errors_describe_themselves() {
    assert_eq!(CompileError.message(), "CompileError");
    let fault = RuntimeError { kind: FaultKind::StackOverflow };
    assert_eq!(fault.message(), "RuntimeError");
    assert_eq!(InterpretError::CompileError(CompileError).message(), "CompileError");
    assert_eq!(InterpretError::RuntimeError(fault).message(), "RuntimeError");
}
