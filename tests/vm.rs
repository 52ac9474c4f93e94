use rlox::chunk::{add_constant, init_chunk, write_chunk, Chunk, OpCode};
use rlox::vm::{init_vm, InterpretResult, VM, STACK_MAX};

fn arith(op: OpCode, a: f64, b: f64) -> f64 {
    match op {
        OpCode::OP_ADD => a + b,
        OpCode::OP_SUBSTRACT => a - b,
        OpCode::OP_MULTIPLY => a * b,
        OpCode::OP_DIVIDE => a / b,
        _ => unreachable!(),
    }
}

fn neg(a: f64) -> f64 {
    -a
}

fn constant(chunk: &mut Chunk<f64>, v: f64, line: usize) {
    let i = add_constant(chunk, v);
    write_chunk(chunk, OpCode::OP_CONSTANT as u8, line);
    write_chunk(chunk, i as u8, line);
}

fn op(chunk: &mut Chunk<f64>, o: OpCode, line: usize) {
    write_chunk(chunk, o as u8, line);
}

fn run(chunk: Chunk<f64>) -> (InterpretResult, Option<f64>) {
    let mut vm: VM<f64> = init_vm();
    let r = vm.interpret(chunk, arith, neg);
    (r, vm.returned_value())
}

#[test]
fn arithmetic_program_returns_expected_value() {
    let mut chunk = init_chunk();
    constant(&mut chunk, 1.2, 123);
    constant(&mut chunk, 3.4, 123);
    op(&mut chunk, OpCode::OP_ADD, 123);
    constant(&mut chunk, 5.6, 123);
    op(&mut chunk, OpCode::OP_DIVIDE, 123);
    op(&mut chunk, OpCode::OP_NEGATE, 123);
    op(&mut chunk, OpCode::OP_RETURN, 123);
    let (r, v) = run(chunk);
    assert_eq!(r, InterpretResult::InterpretOk);
    assert_eq!(v, Some(-((1.2 + 3.4) / 5.6)));
}

#[test]
fn leading_pop_underflows() {
    for o in [
        OpCode::OP_ADD,
        OpCode::OP_SUBSTRACT,
        OpCode::OP_MULTIPLY,
        OpCode::OP_DIVIDE,
        OpCode::OP_NEGATE,
        OpCode::OP_RETURN,
    ] {
        let mut chunk = init_chunk();
        op(&mut chunk, o, 1);
        constant(&mut chunk, 1.0, 1);
        op(&mut chunk, OpCode::OP_RETURN, 1);
        let (r, v) = run(chunk);
        assert_eq!(r, InterpretResult::InterpretRuntimeError);
        assert_eq!(v, None);
    }
}

#[test]
fn binary_with_one_operand_underflows() {
    let mut chunk = init_chunk();
    constant(&mut chunk, 2.0, 1);
    op(&mut chunk, OpCode::OP_MULTIPLY, 1);
    op(&mut chunk, OpCode::OP_RETURN, 1);
    assert_eq!(run(chunk).0, InterpretResult::InterpretRuntimeError);
}

#[test]
fn right_operand_is_the_last_pushed() {
    let mut chunk = init_chunk();
    constant(&mut chunk, 10.0, 1);
    constant(&mut chunk, 4.0, 1);
    op(&mut chunk, OpCode::OP_SUBSTRACT, 1);
    op(&mut chunk, OpCode::OP_RETURN, 1);
    assert_eq!(run(chunk), (InterpretResult::InterpretOk, Some(6.0)));

    let mut chunk = init_chunk();
    constant(&mut chunk, 1.0, 1);
    constant(&mut chunk, 4.0, 1);
    op(&mut chunk, OpCode::OP_DIVIDE, 1);
    op(&mut chunk, OpCode::OP_RETURN, 1);
    assert_eq!(run(chunk), (InterpretResult::InterpretOk, Some(0.25)));
}

#[test]
fn return_takes_the_top_of_the_stack() {
    let mut chunk = init_chunk();
    constant(&mut chunk, 1.0, 1);
    constant(&mut chunk, 2.0, 1);
    op(&mut chunk, OpCode::OP_RETURN, 1);
    assert_eq!(run(chunk), (InterpretResult::InterpretOk, Some(2.0)));
}

#[test]
fn division_by_zero_is_not_an_error() {
    let mut chunk = init_chunk();
    constant(&mut chunk, 1.0, 1);
    constant(&mut chunk, 0.0, 1);
    op(&mut chunk, OpCode::OP_DIVIDE, 1);
    op(&mut chunk, OpCode::OP_RETURN, 1);
    assert_eq!(run(chunk), (InterpretResult::InterpretOk, Some(f64::INFINITY)));

    let mut chunk = init_chunk();
    constant(&mut chunk, 0.0, 1);
    constant(&mut chunk, 0.0, 1);
    op(&mut chunk, OpCode::OP_DIVIDE, 1);
    op(&mut chunk, OpCode::OP_RETURN, 1);
    let (r, v) = run(chunk);
    assert_eq!(r, InterpretResult::InterpretOk);
    assert!(v.unwrap().is_nan());
}

#[test]
fn unknown_opcode_is_a_runtime_error() {
    let mut chunk = init_chunk();
    constant(&mut chunk, 1.0, 1);
    write_chunk(&mut chunk, 7, 1);
    op(&mut chunk, OpCode::OP_RETURN, 1);
    assert_eq!(run(chunk), (InterpretResult::InterpretRuntimeError, None));
}

#[test]
fn running_off_the_end_is_a_runtime_error() {
    let mut chunk = init_chunk();
    constant(&mut chunk, 1.0, 1);
    assert_eq!(run(chunk).0, InterpretResult::InterpretRuntimeError);
    assert_eq!(run(init_chunk()).0, InterpretResult::InterpretRuntimeError);
}

#[test]
fn missing_or_bad_operand_is_a_runtime_error() {
    let mut chunk: Chunk<f64> = init_chunk();
    add_constant(&mut chunk, 1.0);
    op(&mut chunk, OpCode::OP_CONSTANT, 1);
    assert_eq!(run(chunk).0, InterpretResult::InterpretRuntimeError);

    let mut chunk: Chunk<f64> = init_chunk();
    add_constant(&mut chunk, 1.0);
    op(&mut chunk, OpCode::OP_CONSTANT, 1);
    write_chunk(&mut chunk, 1, 1);
    op(&mut chunk, OpCode::OP_RETURN, 1);
    assert_eq!(run(chunk).0, InterpretResult::InterpretRuntimeError);
}

#[test]
fn stack_overflow_is_a_runtime_error() {
    let mut chunk: Chunk<f64> = init_chunk();
    let i = add_constant(&mut chunk, 1.0) as u8;
    for _ in 0..STACK_MAX {
        op(&mut chunk, OpCode::OP_CONSTANT, 1);
        write_chunk(&mut chunk, i, 1);
    }
    op(&mut chunk, OpCode::OP_RETURN, 1);
    let mut full = init_chunk();
    let j = add_constant(&mut full, 1.0) as u8;
    for _ in 0..=STACK_MAX {
        op(&mut full, OpCode::OP_CONSTANT, 1);
        write_chunk(&mut full, j, 1);
    }
    op(&mut full, OpCode::OP_RETURN, 1);
    assert_eq!(run(chunk), (InterpretResult::InterpretOk, Some(1.0)));
    assert_eq!(run(full).0, InterpretResult::InterpretRuntimeError);
}

#[test]
fn machines_are_independent_and_reusable() {
    let mut a: VM<f64> = init_vm();
    let mut b: VM<f64> = init_vm();
    assert_eq!(a.returned_value(), None);

    let mut ok = init_chunk();
    constant(&mut ok, 8.0, 1);
    op(&mut ok, OpCode::OP_NEGATE, 1);
    op(&mut ok, OpCode::OP_RETURN, 1);
    assert_eq!(a.interpret(ok, arith, neg), InterpretResult::InterpretOk);

    let mut bad = init_chunk();
    op(&mut bad, OpCode::OP_RETURN, 1);
    assert_eq!(b.interpret(bad, arith, neg), InterpretResult::InterpretRuntimeError);
    assert_eq!(a.returned_value(), Some(-8.0));
    assert_eq!(b.returned_value(), None);

    let mut again = init_chunk();
    constant(&mut again, 2.0, 1);
    constant(&mut again, 3.0, 1);
    op(&mut again, OpCode::OP_MULTIPLY, 1);
    op(&mut again, OpCode::OP_RETURN, 1);
    assert_eq!(a.interpret(again, arith, neg), InterpretResult::InterpretOk);
    assert_eq!(a.returned_value(), Some(6.0));
}
