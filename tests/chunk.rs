use rlox::chunk::{add_constant, init_chunk, write_chunk, OpCode};
use rlox::debug::{dissassemble_chunk, dissassemble_instruction};
use rlox::value::{init_value_array, write_value_array};

#[test]
fn constant_pool_round_trip() {
    let values = [1.2, -0.0, 3.4, 1.2, f64::MAX, 1e-300, 0.1 + 0.2];
    let mut chunk = init_chunk::<f64>();
    let mut indices = Vec::new();
    for v in values {
        indices.push(add_constant(&mut chunk, v));
    }
    assert_eq!(indices, vec![0, 1, 2, 3, 4, 5, 6]);
    assert_eq!(chunk.constant_count(), values.len());
    for (i, v) in values.iter().enumerate() {
        assert_eq!(chunk.get_constant_value(i).to_bits(), v.to_bits());
    }
    assert_eq!(chunk.count(), 0);
}

#[test]
fn line_table_follows_writes() {
    let mut chunk = init_chunk::<f64>();
    let writes: [(u8, usize); 5] = [(0, 1), (0, 1), (5, 2), (6, 7), (200, 3)];
    for (b, l) in writes {
        write_chunk(&mut chunk, b, l);
    }
    assert_eq!(chunk.count(), writes.len());
    for (offset, (b, l)) in writes.iter().enumerate() {
        assert_eq!(chunk.get_line(offset), *l);
        assert_eq!(chunk.get_byte(offset), *b);
    }
}

#[test]
fn decoding_bytes() {
    let ops = [
        OpCode::OP_CONSTANT,
        OpCode::OP_ADD,
        OpCode::OP_SUBSTRACT,
        OpCode::OP_MULTIPLY,
        OpCode::OP_DIVIDE,
        OpCode::OP_NEGATE,
        OpCode::OP_RETURN,
    ];
    for op in ops {
        assert_eq!(OpCode::from_byte(op as u8), Some(op));
    }
    for b in 7..=255u8 {
        assert_eq!(OpCode::from_byte(b), None);
    }
    let mut chunk = init_chunk::<f64>();
    write_chunk(&mut chunk, OpCode::OP_NEGATE as u8, 1);
    write_chunk(&mut chunk, 42, 1);
    assert_eq!(chunk.get(0), Some(OpCode::OP_NEGATE));
    assert_eq!(chunk.get(1), None);
}

#[test]
fn value_array_appends_in_order() {
    let mut a = init_value_array::<i32>();
    assert_eq!(a.count(), 0);
    write_value_array(&mut a, 5);
    write_value_array(&mut a, 5);
    write_value_array(&mut a, -1);
    assert_eq!(a.count(), 3);
    assert_eq!((a.get(0), a.get(1), a.get(2)), (5, 5, -1));
}

#[test]
fn disassembly_decodes_operands_and_lines() {
    let mut chunk = init_chunk::<f64>();
    let c = add_constant(&mut chunk, 1.5) as u8;
    write_chunk(&mut chunk, OpCode::OP_CONSTANT as u8, 123);
    write_chunk(&mut chunk, c, 123);
    write_chunk(&mut chunk, OpCode::OP_NEGATE as u8, 123);
    write_chunk(&mut chunk, 99, 124);
    write_chunk(&mut chunk, OpCode::OP_CONSTANT as u8, 125);

    let first = dissassemble_instruction(&chunk, 0);
    assert_eq!(first.opcode, Some(OpCode::OP_CONSTANT));
    assert_eq!(first.operand, Some(c));
    assert_eq!(first.line, 123);
    assert!(!first.same_line);
    assert_eq!(first.next, 2);

    let all = dissassemble_chunk(&chunk);
    assert_eq!(all.len(), 4);
    assert_eq!(all[1].opcode, Some(OpCode::OP_NEGATE));
    assert!(all[1].same_line);
    assert_eq!(all[1].next, 3);
    assert_eq!(all[2].opcode, None);
    assert_eq!(all[2].line, 124);
    assert_eq!(all[2].next, 4);
    // A constant instruction cut short has no operand.
    assert_eq!(all[3].opcode, Some(OpCode::OP_CONSTANT));
    assert_eq!(all[3].operand, None);
    assert_eq!(all[3].next, 5);
}

#[test]
fn disassembly_lists_every_instruction() {
    let mut chunk = init_chunk::<f64>();
    let c = add_constant(&mut chunk, 2.0) as u8;
    for line in 1..=3 {
        write_chunk(&mut chunk, OpCode::OP_CONSTANT as u8, line);
        write_chunk(&mut chunk, c, line);
        write_chunk(&mut chunk, OpCode::OP_ADD as u8, line);
    }
    write_chunk(&mut chunk, OpCode::OP_RETURN as u8, 4);
    let all = dissassemble_chunk(&chunk);
    assert_eq!(all.len(), 7);
    let nexts: Vec<usize> = all.iter().map(|i| i.next).collect();
    assert_eq!(nexts, vec![2, 3, 5, 6, 8, 9, 10]);
    assert_eq!(all[6].opcode, Some(OpCode::OP_RETURN));
    assert!(dissassemble_chunk(&init_chunk::<f64>()).is_empty());
}
