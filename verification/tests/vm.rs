use bf_zkvm::air::check_matrix;
use bf_zkvm::code::{compile, compile_to_u16, easygen, CompileError};
use bf_zkvm::field::{fr_eq, fr_from_u64, fr_vec_eq};
use bf_zkvm::interpreter::{Interpreter, RunError};
use bf_zkvm::matrix::matrix_eq;

const NEPTUNE: &str = "++>,<[>+.<-]";

const HELLO_WORLD: &str = "++++++++[>++++[>++>+++>+++>+<<<<-]>+>+>->>+[<]<-]>>.>---.+++++++..+++.>>.<-.<.+++.------.--------.>>+.>++.";

fn compiled(text: &str) -> Vec<u64> {
    compile_to_u16(text.as_bytes().to_vec())
        .unwrap()
        .iter()
        .map(|&x| x as u64)
        .collect()
}

fn run_program(text: &str, input: &str) -> Interpreter {
    let mut vm = Interpreter::new();
    vm.set_code(compiled(text));
    vm.set_input(input.as_bytes().iter().map(|&b| b as u64).collect());
    vm.run().unwrap();
    vm
}

fn output_values(vm: &Interpreter) -> Vec<u64> {
    vm.matrix.output_matrix.iter().map(|r| r.value).collect()
}

fn input_values(vm: &Interpreter) -> Vec<u64> {
    vm.matrix.input_matrix.iter().map(|r| r.value).collect()
}

#[test]
fn test_compile_neptune() {
    let output = compile(NEPTUNE.as_bytes().to_vec()).unwrap();
    let expect_vals: Vec<u64> = vec![
        '+' as u64,
        '+' as u64,
        '>' as u64,
        ',' as u64,
        '<' as u64,
        '[' as u64,
        14,
        '>' as u64,
        '+' as u64,
        '.' as u64,
        '<' as u64,
        '-' as u64,
        ']' as u64,
        7,
    ];
    let expect: Vec<_> = expect_vals.iter().map(|&x| fr_from_u64(x)).collect();
    assert!(fr_vec_eq(&output, &expect));
}

#[test]
fn test_compile_to_u16_neptune() {
    let output = compile_to_u16(NEPTUNE.as_bytes().to_vec()).unwrap();
    assert_eq!(output, vec![43, 43, 62, 44, 60, 91, 14, 62, 43, 46, 60, 45, 93, 7]);
}

#[test]
fn test_compile_discards_other_bytes() {
    let output = compile_to_u16("a + b , c .".as_bytes().to_vec()).unwrap();
    assert_eq!(output, vec![43, 44, 46]);
}

#[test]
fn test_compile_mismatched_backward() {
    assert_eq!(
        compile_to_u16("]".as_bytes().to_vec()),
        Err(CompileError::MismatchedBracket)
    );
}

#[test]
fn test_compile_mismatched_forward() {
    assert_eq!(
        compile_to_u16("[+".as_bytes().to_vec()),
        Err(CompileError::MismatchedBracket)
    );
}

#[test]
fn test_easygen() {
    let v = easygen("ab");
    assert_eq!(v.len(), 2);
    assert!(fr_eq(&v[0], &fr_from_u64(97)));
    assert!(fr_eq(&v[1], &fr_from_u64(98)));
}

#[test]
fn test_run_hello_world() {
    let vm = run_program(HELLO_WORLD, "");
    let expect: Vec<u64> = "Hello World!\n".as_bytes().iter().map(|&b| b as u64).collect();
    assert_eq!(output_values(&vm), expect);
    assert_eq!(vm.matrix.input_matrix.len(), 0);
    assert!(check_matrix(&vm.matrix, 8));
}

#[test]
fn test_run_neptune() {
    let vm = run_program(NEPTUNE, "a");
    assert_eq!(vm.matrix.processor_matrix.len(), 19);
    assert_eq!(vm.matrix.memory_matrix.len(), 19);
    assert_eq!(vm.matrix.instruction_matrix.len(), 33);
    assert_eq!(input_values(&vm), vec!['a' as u64]);
    assert_eq!(output_values(&vm), vec!['b' as u64, 'c' as u64]);

    let program: Vec<[u64; 3]> = vm
        .matrix
        .program
        .iter()
        .map(|p| [p.instruction_pointer, p.current_instruction, p.next_instruction])
        .collect();
    let expect = vec![
        [0, 43, 43],
        [1, 43, 62],
        [2, 62, 44],
        [3, 44, 60],
        [4, 60, 91],
        [5, 91, 14],
        [6, 14, 62],
        [7, 62, 43],
        [8, 43, 46],
        [9, 46, 60],
        [10, 60, 45],
        [11, 45, 93],
        [12, 93, 7],
        [13, 7, 0],
        [14, 0, 0],
    ];
    assert_eq!(program, expect);
    assert!(check_matrix(&vm.matrix, 8));
}

#[test]
fn test_run() {
    let mut vm = Interpreter::new();
    vm.set_code(compiled(HELLO_WORLD));
    vm.run().unwrap();
    let mut vm2 = Interpreter::new();
    vm2.set_code(compiled(HELLO_WORLD));
    vm2.run().unwrap();
    println!(
        "{:?},{:?},{:?},{:?},{:?},{:?},{:?}",
        vm2.matrix.program.len(),
        vm2.matrix.input_matrix.len(),
        vm2.matrix.instruction_matrix.len(),
        vm2.matrix.memory_matrix.len(),
        vm2.matrix.processor_matrix.len(),
        vm2.matrix.output_matrix.len(),
        vm2.matrix.input_matrix.len()
    );
}

#[test]
fn test_rerun_identical_tables() {
    let vm1 = run_program(NEPTUNE, "a");
    let vm2 = run_program(NEPTUNE, "a");
    assert!(matrix_eq(&vm1.matrix, &vm2.matrix));
    let vm3 = run_program(HELLO_WORLD, "");
    let vm4 = run_program(HELLO_WORLD, "");
    assert!(matrix_eq(&vm3.matrix, &vm4.matrix));
}

#[test]
fn test_single_opcode_boundary() {
    let vm = run_program("+", "");
    assert_eq!(vm.matrix.processor_matrix.len(), 2);
    let first = &vm.matrix.processor_matrix[0];
    assert_eq!(first.cycle, 0);
    assert_eq!(first.instruction_pointer, 0);
    assert_eq!(first.memory_pointer, 0);
    assert_eq!(first.memory_value, 0);
    assert!(check_matrix(&vm.matrix, 8));
}

#[test]
fn test_tamper_output_fails_check() {
    let mut vm = run_program(NEPTUNE, "a");
    assert!(check_matrix(&vm.matrix, 8));
    vm.matrix.output_matrix[0].value += 1;
    assert!(!check_matrix(&vm.matrix, 8));
}

#[test]
fn test_tamper_second_output_fails_check() {
    let mut vm = run_program(NEPTUNE, "a");
    vm.matrix.output_matrix[1].value = 0;
    assert!(!check_matrix(&vm.matrix, 8));
}

#[test]
fn test_wraparound_decrement() {
    let vm = run_program("-.", "");
    assert_eq!(output_values(&vm), vec![255]);
    assert!(check_matrix(&vm.matrix, 8));
}

#[test]
fn test_wraparound_increment() {
    let text: String = "+".repeat(256) + ".";
    let vm = run_program(&text, "");
    assert_eq!(output_values(&vm), vec![0]);
    assert!(check_matrix(&vm.matrix, 8));
}

#[test]
fn test_narrow_cells() {
    let mut vm = Interpreter::new();
    vm.set_code(compiled("-."));
    vm.set_bits(4);
    vm.run().unwrap();
    assert_eq!(output_values(&vm), vec![15]);
    assert!(check_matrix(&vm.matrix, 4));
}

#[test]
fn test_input_exhausted() {
    let mut vm = Interpreter::new();
    vm.set_code(compiled(","));
    assert_eq!(vm.run(), Err(RunError::InputExhausted));
}

#[test]
fn test_pointer_underflow() {
    let mut vm = Interpreter::new();
    vm.set_code(compiled("<"));
    assert_eq!(vm.run(), Err(RunError::PointerUnderflow));
}

#[test]
fn test_unknown_opcode() {
    let mut vm = Interpreter::new();
    vm.set_code(vec![999]);
    assert_eq!(vm.run(), Err(RunError::UnknownOpcode));
}

#[test]
fn test_missing_jump_target() {
    let mut vm = Interpreter::new();
    vm.set_code(vec!['[' as u64]);
    assert_eq!(vm.run(), Err(RunError::MissingJumpTarget));
}

#[test]
fn test_empty_program() {
    let mut vm = Interpreter::new();
    vm.set_code(Vec::new());
    vm.run().unwrap();
    assert_eq!(vm.matrix.processor_matrix.len(), 1);
    assert!(check_matrix(&vm.matrix, 8));
}

#[test]
fn test_read_reaches_tables() {
    // one read, one write: the consumed byte is committed and re-emitted
    let vm = run_program(",.", "x");
    assert_eq!(input_values(&vm), vec!['x' as u64]);
    assert_eq!(output_values(&vm), vec!['x' as u64]);
    assert_eq!(vm.matrix.input_matrix[0].cycle, 1);
    assert_eq!(vm.matrix.output_matrix[0].cycle, 1);
    assert!(check_matrix(&vm.matrix, 8));
}
