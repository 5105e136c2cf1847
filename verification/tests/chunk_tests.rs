use rlox::chunk::Chunk;
use rlox::chunk::Opcode;
use rlox::vm::CompileError;
use rlox::vm::FaultKind;

#[test]
fn write_keeps_lines_in_lockstep() {
    let mut chunk = Chunk::new();
    assert_eq!(chunk.code.len(), 0);
    assert_eq!(chunk.lines.len(), 0);
    for i in 0..20u8 {
        chunk.write(i, 1 + (i as usize) / 3);
        assert_eq!(chunk.lines.len(), chunk.code.len());
    }
    assert_eq!(chunk.code.len(), 20);
    assert_eq!(chunk.lines[5], 2);
}

#[test]
fn add_constant_returns_index_of_value() {
    let mut chunk = Chunk::new();
    let a = chunk.add_constant(1.2f64.to_bits()).unwrap();
    let b = chunk.add_constant(3.4f64.to_bits()).unwrap();
    let c = chunk.add_constant((-0.0f64).to_bits()).unwrap();
    assert_eq!(a, 0);
    assert_eq!(b, 1);
    assert_eq!(c, 2);
    assert_eq!(f64::from_bits(chunk.constants[a as usize]), 1.2);
    assert_eq!(f64::from_bits(chunk.constants[b as usize]), 3.4);
    assert_eq!(chunk.constants[c as usize], (-0.0f64).to_bits());
}

#[test]
fn add_constant_fails_on_the_257th() {
    let mut chunk = Chunk::new();
    for i in 0..256u32 {
        let index = chunk.add_constant((i as f64).to_bits()).unwrap();
        assert_eq!(index as u32, i);
    }
    assert_eq!(chunk.add_constant(7.0f64.to_bits()), Err(CompileError));
    assert_eq!(chunk.constants.len(), 256);
}

#[test]
fn free_clears_everything_and_is_idempotent() {
    let mut chunk = Chunk::new();
    chunk.write(6, 1);
    chunk.add_constant(1.0f64.to_bits()).unwrap();
    chunk.free();
    assert_eq!(chunk.code.len(), 0);
    assert_eq!(chunk.constants.len(), 0);
    assert_eq!(chunk.lines.len(), 0);
    chunk.free();
    assert_eq!(chunk.code.len(), 0);
}

#[test]
fn opcode_bytes_decode_to_each_instruction() {
    assert!(matches!(Opcode::try_from(0), Ok(Opcode::Constant)));
    assert!(matches!(Opcode::try_from(1), Ok(Opcode::Add)));
    assert!(matches!(Opcode::try_from(2), Ok(Opcode::Subtract)));
    assert!(matches!(Opcode::try_from(3), Ok(Opcode::Multiply)));
    assert!(matches!(Opcode::try_from(4), Ok(Opcode::Divide)));
    assert!(matches!(Opcode::try_from(5), Ok(Opcode::Negate)));
    assert!(matches!(Opcode::try_from(6), Ok(Opcode::Return)));
}

#[test]
fn every_byte_past_the_instruction_set_is_rejected() {
    for byte in 7..=255u8 {
        let decoded = Opcode::try_from(byte);
        assert!(decoded.is_err());
        assert_eq!(decoded.unwrap_err().kind, FaultKind::InvalidInstruction);
    }
}

#[test]
fn a_freed_chunk_can_be_grown_again() {
    let mut chunk = Chunk::new();
    chunk.write(6, 9);
    chunk.free();
    let index = chunk.add_constant(2.5f64.to_bits()).unwrap();
    assert_eq!(index, 0);
    chunk.write(0, 4);
    chunk.write(index, 4);
    assert_eq!(chunk.code, vec![0, 0]);
    assert_eq!(chunk.lines, vec![4, 4]);
}
