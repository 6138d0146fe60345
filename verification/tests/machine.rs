use zpu::assembler::assemble_program;
use zpu::zpu::{fetch, Fault, Instruction, Opcode, Output, Register, ZResult, ZPU};

fn word(code: u16, first: u8, second: u8) -> Vec<u8> {
    let value = ((code as u32) << 16) | ((first as u32) << 8) | (second as u32);
    value.to_le_bytes().to_vec()
}

fn immediate(value: u32) -> Vec<u8> {
    value.to_le_bytes().to_vec()
}

fn machine(source: &str) -> ZPU {
    ZPU::new(assemble_program(source).unwrap()).unwrap()
}

fn blank() -> ZPU {
    ZPU::new(Vec::new()).unwrap()
}

fn with_a(value: u32) -> ZPU {
    let mut m = blank();
    m.registers[0] = value;
    m
}

#[test]
fn new_machine_is_reset_and_running() {
    let m = ZPU::new(word(2, 0, 0)).unwrap();
    assert_eq!(m.program, word(2, 0, 0));
    assert_eq!(m.registers, [0; 8]);
    assert_eq!(m.pc, 0);
    assert_eq!(m.cmp_flag, 0);
    assert!(!m.zero_flag);
    assert!(m.running);
}

#[test]
fn program_of_broken_words_is_refused() {
    assert!(matches!(ZPU::new(vec![0, 0, 2, 0, 0]), Err(Fault::MalformedProgram)));
    let mut m = with_a(7);
    m.pc = 3;
    assert_eq!(m.load_program(vec![1, 2, 3]), Err(Fault::MalformedProgram));
    assert_eq!(m.registers[0], 7);
    assert_eq!(m.pc, 3);
    assert_eq!(m.program, Vec::<u8>::new());
}

#[test]
fn load_program_resets_everything() {
    let mut m = machine("mov a, 5\ncmp a, 5\nhlt a, a\n");
    while m.step().unwrap().running {}
    assert_eq!(m.registers[0], 5);
    assert!(m.zero_flag);
    assert!(!m.running);
    let next = assemble_program("mov b, 1\n").unwrap();
    assert_eq!(m.load_program(next.clone()), Ok(()));
    assert_eq!(m.program, next);
    assert_eq!(m.registers, [0; 8]);
    assert_eq!(m.pc, 0);
    assert_eq!(m.cmp_flag, 0);
    assert!(!m.zero_flag);
    assert!(m.running);
}

#[test]
fn mov_then_out_emits_on_second_step() {
    let mut m = machine("mov a, 5\nout a, 42\n");
    let first = m.step().unwrap();
    assert_eq!(first, ZResult { running: true, output: None });
    let second = m.step().unwrap();
    assert!(second.running);
    assert_eq!(second.output, Some(Output { port: 5, data: 42 }));
    assert_eq!(m.registers[0], 5);
    assert_eq!(m.pc, 4);
}

#[test]
fn compare_sets_flags() {
    for (held, zero, flag) in [(10u32, true, 0i32), (5, false, -1), (20, false, 1)] {
        let mut m = with_a(held);
        let out = m.execute(Opcode::Compare, Register::A, Register::Null, Some(10)).unwrap();
        assert_eq!(out, None);
        assert_eq!(m.zero_flag, zero);
        assert_eq!(m.cmp_flag, flag);
        assert_eq!(m.pc, 2);
        assert_eq!(m.registers[0], held);
    }
}

#[test]
fn halt_program_stops_and_stays_stopped() {
    let mut m = machine("");
    assert_eq!(m.program, [word(2, 0, 0), immediate(0)].concat());
    let first = m.step().unwrap();
    assert_eq!(first, ZResult { running: false, output: None });
    assert_eq!(m.pc, 2);
    let registers = m.registers;
    for _ in 0..5 {
        let again = m.step().unwrap();
        assert_eq!(again, ZResult { running: false, output: None });
        assert_eq!(m.pc, 2);
        assert_eq!(m.registers, registers);
    }
}

#[test]
fn register_program_takes_one_word_a_step() {
    let source = "start:\nmov a, b\nadd c, d\nnop x, y\nout e, z\nmmov a, b\n";
    let binary = assemble_program(source).unwrap();
    assert_eq!(binary.len(), 4 * (5 + 2));
    let mut m = ZPU::new(binary).unwrap();
    for done in 1..=5u32 {
        let result = m.step().unwrap();
        assert!(result.running);
        assert_eq!(m.pc, done);
    }
    let last = m.step().unwrap();
    assert_eq!(last, ZResult { running: false, output: None });
    assert_eq!(m.pc, 7);
}

#[test]
fn forward_branch_goes_to_label_position_plus_one() {
    // words: jmp 0-1, mov 2, label at 3, out 3, halt 4-5
    let source = "jmp over\nmov a, b\nover:\nout a, b\n";
    let binary = assemble_program(source).unwrap();
    assert_eq!(
        binary,
        [word(1, 0, 0), immediate(4), word(6, 1, 2), word(0x11, 1, 2), word(2, 0, 0), immediate(0)]
            .concat()
    );
    let mut m = ZPU::new(binary).unwrap();
    assert_eq!(m.step(), Ok(ZResult { running: true, output: None }));
    assert_eq!(m.pc, 4);
    assert_eq!(m.step(), Ok(ZResult { running: false, output: None }));
}

#[test]
fn backward_branch_goes_to_label_position_plus_one() {
    // words: nop 0, label at 1, mov 1, out 2, jmp 3-4, halt 5-6
    let source = "nop a, a\nback:\nmov a, b\nout a, b\njmp back\n";
    let binary = assemble_program(source).unwrap();
    assert_eq!(
        binary,
        [
            word(0, 1, 1),
            word(6, 1, 2),
            word(0x11, 1, 2),
            word(1, 0, 0),
            immediate(2),
            word(2, 0, 0),
            immediate(0)
        ]
        .concat()
    );
    let mut m = ZPU::new(binary).unwrap();
    m.step().unwrap();
    m.step().unwrap();
    m.step().unwrap();
    assert_eq!(m.pc, 3);
    assert_eq!(m.step(), Ok(ZResult { running: true, output: None }));
    assert_eq!(m.pc, 2);
    assert_eq!(m.step(), Ok(ZResult { running: true, output: Some(Output { port: 0, data: 0 }) }));
}

#[test]
fn branch_resumes_behind_label_where_the_count_is_one_short() {
    // inc takes two words and counts one, so the label is bound to 1 and the
    // target 2 is where the instruction behind the label stands.
    let source = "inc a\nloop:\nout a, a\njmp loop\n";
    let binary = assemble_program(source).unwrap();
    assert_eq!(
        binary,
        [
            word(3, 1, 0),
            immediate(0),
            word(0x11, 1, 1),
            word(1, 0, 0),
            immediate(2),
            word(2, 0, 0),
            immediate(0)
        ]
        .concat()
    );
    let mut m = ZPU::new(binary).unwrap();
    m.step().unwrap();
    assert_eq!(m.step().unwrap().output, Some(Output { port: 1, data: 1 }));
    m.step().unwrap();
    assert_eq!(m.pc, 2);
    assert_eq!(m.step().unwrap().output, Some(Output { port: 1, data: 1 }));
}

#[test]
fn move_sets_the_register() {
    let mut m = blank();
    m.registers[2] = 9;
    assert_eq!(m.execute(Opcode::Move, Register::Z, Register::C, None), Ok(None));
    assert_eq!(m.registers, [0, 0, 9, 0, 0, 0, 0, 9]);
    assert_eq!(m.pc, 1);
}

#[test]
fn increment_adds_one_and_wraps() {
    let mut m = with_a(41);
    assert_eq!(m.execute(Opcode::Increment, Register::A, Register::Null, Some(99)), Ok(None));
    assert_eq!(m.registers[0], 42);
    let mut m = with_a(u32::MAX);
    assert_eq!(m.execute(Opcode::Increment, Register::A, Register::Null, Some(0)), Ok(None));
    assert_eq!(m.registers[0], 0);
}

#[test]
fn shifts_move_bits_and_empty_the_word_from_32_on() {
    let mut m = with_a(0x8000_0001);
    m.execute(Opcode::ShiftLeft, Register::A, Register::Null, Some(1)).unwrap();
    assert_eq!(m.registers[0], 2);
    m.execute(Opcode::ShiftLeft, Register::A, Register::Null, Some(4)).unwrap();
    assert_eq!(m.registers[0], 32);
    m.execute(Opcode::ShiftRight, Register::A, Register::Null, Some(3)).unwrap();
    assert_eq!(m.registers[0], 4);
    m.execute(Opcode::ShiftRight, Register::A, Register::Null, Some(0)).unwrap();
    assert_eq!(m.registers[0], 4);
    m.execute(Opcode::ShiftLeft, Register::A, Register::Null, Some(31)).unwrap();
    assert_eq!(m.registers[0], 0);
    let mut m = with_a(0xffff_ffff);
    m.execute(Opcode::ShiftLeft, Register::A, Register::Null, Some(32)).unwrap();
    assert_eq!(m.registers[0], 0);
    let mut m = with_a(0xffff_ffff);
    m.execute(Opcode::ShiftRight, Register::A, Register::Null, Some(32)).unwrap();
    assert_eq!(m.registers[0], 0);
    let mut m = with_a(0xffff_ffff);
    m.execute(Opcode::ShiftRight, Register::A, Register::Null, Some(u32::MAX)).unwrap();
    assert_eq!(m.registers[0], 0);
    let mut m = with_a(0xffff_ffff);
    m.execute(Opcode::ShiftRight, Register::A, Register::Null, Some(31)).unwrap();
    assert_eq!(m.registers[0], 1);
}

#[test]
fn sums_differences_and_products_wrap() {
    let mut m = with_a(0xffff_fff0);
    m.execute(Opcode::Add, Register::A, Register::Null, Some(0x20)).unwrap();
    assert_eq!(m.registers[0], 0x10);
    m.execute(Opcode::Subtract, Register::A, Register::Null, Some(0x11)).unwrap();
    assert_eq!(m.registers[0], 0xffff_ffff);
    m.execute(Opcode::Multiply, Register::A, Register::Null, Some(2)).unwrap();
    assert_eq!(m.registers[0], 0xffff_fffe);
    let mut m = with_a(7);
    m.execute(Opcode::Add, Register::A, Register::Null, Some(5)).unwrap();
    assert_eq!(m.registers[0], 12);
    m.execute(Opcode::Subtract, Register::A, Register::Null, Some(2)).unwrap();
    assert_eq!(m.registers[0], 10);
    m.execute(Opcode::Multiply, Register::A, Register::Null, Some(6)).unwrap();
    assert_eq!(m.registers[0], 60);
    assert_eq!(m.pc, 6);
}

#[test]
fn division_rounds_down_and_refuses_zero() {
    let mut m = with_a(17);
    assert_eq!(m.execute(Opcode::Divide, Register::A, Register::Null, Some(5)), Ok(None));
    assert_eq!(m.registers[0], 3);
    assert_eq!(m.pc, 2);
    assert_eq!(
        m.execute(Opcode::Divide, Register::A, Register::Null, Some(0)),
        Err(Fault::DivisionByZero)
    );
    assert_eq!(m.registers[0], 3);
    assert_eq!(m.pc, 2);
    assert_eq!(m.execute(Opcode::Divide, Register::A, Register::B, None), Err(Fault::DivisionByZero));
    assert_eq!(m.pc, 2);
}

#[test]
fn jump_sets_the_program_counter() {
    let mut m = blank();
    assert_eq!(m.execute(Opcode::Jump, Register::Null, Register::Null, Some(77)), Ok(None));
    assert_eq!(m.pc, 77);
    m.registers[1] = 5;
    assert_eq!(m.execute(Opcode::Jump, Register::Null, Register::B, None), Ok(None));
    assert_eq!(m.pc, 5);
}

#[test]
fn conditional_branches_follow_the_flags() {
    let cases = [
        (Opcode::IfEqual, 0, false, true),
        (Opcode::IfEqual, 1, false, false),
        (Opcode::IfEqual, -1, false, false),
        (Opcode::IfNotEqual, 0, false, false),
        (Opcode::IfNotEqual, 1, false, true),
        (Opcode::IfNotEqual, -1, false, true),
        (Opcode::IfGreater, 1, false, true),
        (Opcode::IfGreater, 0, false, false),
        (Opcode::IfGreater, -1, false, false),
        (Opcode::IfLess, -1, false, true),
        (Opcode::IfLess, 0, false, false),
        (Opcode::IfLess, 1, false, false),
        (Opcode::IfZero, 1, true, true),
        (Opcode::IfZero, 0, false, false),
    ];
    for (op, flag, zero, taken) in cases {
        let mut m = blank();
        m.pc = 10;
        m.cmp_flag = flag;
        m.zero_flag = zero;
        assert_eq!(m.execute(op, Register::Null, Register::Null, Some(40)), Ok(None));
        assert_eq!(m.pc, if taken { 40 } else { 12 }, "{:?} {} {}", op, flag, zero);
        assert_eq!(m.cmp_flag, flag);
        assert_eq!(m.zero_flag, zero);
    }
}

#[test]
fn out_reads_the_port_from_the_first_register() {
    let mut m = blank();
    m.registers[3] = 8;
    m.registers[4] = 64;
    assert_eq!(
        m.execute(Opcode::Out, Register::D, Register::E, None),
        Ok(Some(Output { port: 8, data: 64 }))
    );
    assert_eq!(m.pc, 1);
    assert_eq!(m.registers, [0, 0, 0, 8, 64, 0, 0, 0]);
}

#[test]
fn operations_without_effect_only_advance() {
    for op in [
        Opcode::NoOp,
        Opcode::MemoryMove,
        Opcode::MemorySet,
        Opcode::XOr,
        Opcode::In,
        Opcode::Push,
        Opcode::Pop,
    ] {
        let mut m = with_a(0b1100);
        m.registers[1] = 0b1010;
        m.cmp_flag = 1;
        m.zero_flag = true;
        assert_eq!(m.execute(op, Register::A, Register::B, None), Ok(None));
        assert_eq!(m.registers, [0b1100, 0b1010, 0, 0, 0, 0, 0, 0]);
        assert_eq!(m.pc, 1);
        assert_eq!(m.cmp_flag, 1);
        assert!(m.zero_flag);
        assert!(m.running);
        assert_eq!(m.execute(op, Register::Null, Register::Null, Some(3)), Ok(None));
        assert_eq!(m.pc, 3);
        assert_eq!(m.registers, [0b1100, 0b1010, 0, 0, 0, 0, 0, 0]);
    }
}

#[test]
fn halt_stops_the_machine() {
    let mut m = blank();
    assert_eq!(m.execute(Opcode::Halt, Register::Null, Register::Null, Some(0)), Ok(None));
    assert!(!m.running);
    assert_eq!(m.pc, 2);
}

#[test]
fn execute_without_immediate_is_a_fault() {
    let mut m = with_a(1);
    assert_eq!(
        m.execute(Opcode::Move, Register::A, Register::Null, None),
        Err(Fault::MissingImmediate)
    );
    assert_eq!(m.pc, 0);
    assert_eq!(m.registers[0], 1);
}

#[test]
fn execute_on_no_register_is_a_fault() {
    for op in [
        Opcode::Move,
        Opcode::Increment,
        Opcode::ShiftRight,
        Opcode::ShiftLeft,
        Opcode::Add,
        Opcode::Subtract,
        Opcode::Multiply,
        Opcode::Divide,
        Opcode::Compare,
        Opcode::Out,
    ] {
        let mut m = blank();
        assert_eq!(m.execute(op, Register::Null, Register::Null, Some(1)), Err(Fault::NullRegister));
        assert_eq!(m.pc, 0);
        assert_eq!(m.registers, [0; 8]);
    }
}

#[test]
fn program_counter_cannot_pass_its_range() {
    let mut m = blank();
    m.pc = u32::MAX - 1;
    assert_eq!(
        m.execute(Opcode::NoOp, Register::A, Register::Null, Some(0)),
        Err(Fault::ProgramCounterOutOfBounds)
    );
    assert_eq!(m.pc, u32::MAX - 1);
    assert_eq!(m.execute(Opcode::NoOp, Register::A, Register::A, None), Ok(None));
    assert_eq!(m.pc, u32::MAX);
    assert_eq!(
        m.execute(Opcode::NoOp, Register::A, Register::A, None),
        Err(Fault::ProgramCounterOutOfBounds)
    );
    assert_eq!(m.pc, u32::MAX);
}

#[test]
fn step_past_the_end_is_a_fault() {
    let mut m = ZPU::new(word(0, 1, 1)).unwrap();
    assert_eq!(m.step(), Ok(ZResult { running: true, output: None }));
    assert_eq!(m.step(), Err(Fault::ProgramCounterOutOfBounds));
    assert_eq!(m.pc, 1);
    assert!(m.running);
    let mut empty = blank();
    assert_eq!(empty.step(), Err(Fault::ProgramCounterOutOfBounds));
}

#[test]
fn step_without_the_immediate_word_is_a_fault() {
    let mut m = ZPU::new(word(6, 1, 0)).unwrap();
    assert_eq!(m.step(), Err(Fault::ProgramCounterOutOfBounds));
    assert_eq!(m.pc, 0);
    assert_eq!(m.registers, [0; 8]);
}

#[test]
fn step_on_an_unknown_code_is_a_fault() {
    let mut m = ZPU::new([word(0x18, 1, 1), word(0xffff, 1, 1)].concat()).unwrap();
    assert_eq!(m.step(), Err(Fault::UnknownOpcode));
    assert_eq!(m.pc, 0);
    m.pc = 1;
    assert_eq!(m.step(), Err(Fault::UnknownOpcode));
}

#[test]
fn step_of_a_broken_tail_is_a_fault() {
    let mut m = blank();
    m.program = vec![0, 0, 6];
    assert_eq!(m.step(), Err(Fault::ProgramCounterOutOfBounds));
}

#[test]
fn fetch_decodes_words() {
    let program = [word(6, 1, 0), immediate(5), word(0x17, 8, 3), word(7, 2, 9)].concat();
    assert_eq!(
        fetch(&program, 0),
        Ok(Instruction { op: Opcode::Move, first: Register::A, second: Register::Null, data: Some(5) })
    );
    assert_eq!(
        fetch(&program, 2),
        Ok(Instruction { op: Opcode::Compare, first: Register::Z, second: Register::C, data: None })
    );
    // 9 names no register, so the operand is an immediate one, and none follows
    assert_eq!(fetch(&program, 3), Err(Fault::ProgramCounterOutOfBounds));
    assert_eq!(fetch(&program, 4), Err(Fault::ProgramCounterOutOfBounds));
    assert_eq!(fetch(&program, u32::MAX), Err(Fault::ProgramCounterOutOfBounds));
    // the immediate word 5 read as an instruction: code 0, fields 0 and 5
    assert_eq!(
        fetch(&program, 1),
        Ok(Instruction { op: Opcode::NoOp, first: Register::Null, second: Register::E, data: None })
    );
}

#[test]
fn counting_loop_runs_to_its_end() {
    let source = "\
inc a
again:
inc a
cmp a, 3
jl again
out a, a
";
    // the first inc takes two words and counts one: the label is bound to 1,
    // and the branch goes to word 2, where the second inc stands
    let mut m = machine(source);
    let mut outputs = Vec::new();
    let mut steps = 0;
    loop {
        let result = m.step().unwrap();
        if let Some(output) = result.output {
            outputs.push(output);
        }
        steps += 1;
        if !result.running {
            break;
        }
        assert!(steps < 100);
    }
    assert_eq!(m.registers[0], 3);
    assert_eq!(outputs, vec![Output { port: 3, data: 3 }]);
}

#[test]
fn output_and_result_hold_what_they_are_given() {
    assert_eq!(Output::new(3, 4), Output { port: 3, data: 4 });
    let result = ZResult::new(true, Some(Output::new(1, 2)));
    assert!(result.running);
    assert_eq!(result.output, Some(Output { port: 1, data: 2 }));
    assert_eq!(ZResult::new(false, None), ZResult { running: false, output: None });
}
