use vstd::prelude::*;

use crate::field::{
    f_mul, field_order, fr_from_u64, fr_invert_or_zero, fr_value,
};
use crate::matrix::{
    IOMatrixRow, InstructionMatrixRow, Matrix, MatrixV, MemoryMatrixRow,
};
use crate::sorting::{sort_instruction_rows, sort_memory_rows, spec_sort_instr, spec_sort_mem};
use crate::{spec_is_opcode, ADD, GETCHAR, LB, PUTCHAR, RB, SHL, SHR, SUB};
use halo2curves::bn256::Fr;
use vstd::arithmetic::power2::pow2;

verus! {

// The interpreter executes a jump-resolved instruction stream against a
// growable byte tape, and records one register snapshot per executed
// cycle plus a terminal snapshot.  The specification-level machine below
// is the ground truth: `run` is proved to produce exactly its tables.

/// One register snapshot: the pre-execution state of a cycle.
pub struct Register {
    pub cycle: u64,
    pub instruction_pointer: u64,
    pub current_instruction: u64,
    pub next_instruction: u64,
    pub memory_pointer: u64,
    pub memory_value: u64,
    pub memory_value_inverse: Fr,
}

/// Integer view of a register snapshot.
pub ghost struct RegV {
    pub cycle: nat,
    pub instruction_pointer: nat,
    pub current_instruction: nat,
    pub next_instruction: nat,
    pub memory_pointer: nat,
    pub memory_value: nat,
    pub memory_value_inverse: nat,
}

impl View for Register {
    type V = RegV;

    open spec fn view(&self) -> RegV {
        RegV {
            cycle: self.cycle as nat,
            instruction_pointer: self.instruction_pointer as nat,
            current_instruction: self.current_instruction as nat,
            next_instruction: self.next_instruction as nat,
            memory_pointer: self.memory_pointer as nat,
            memory_value: self.memory_value as nat,
            memory_value_inverse: fr_value(self.memory_value_inverse),
        }
    }
}

/// The ways a run can stop early.  A read past the end of the input is
/// the one failure of a well-formed program; the others reject streams or
/// states the machine model has no meaning for, instead of proceeding.
#[derive(Clone, Copy, Debug, PartialEq, Eq, Structural)]
pub enum RunError {
    /// A read instruction found the input queue empty.
    InputExhausted,
    /// A shift left at tape cell zero.
    PointerUnderflow,
    /// The instruction pointer landed on a value that is no opcode.
    UnknownOpcode,
    /// A jump opcode at the very end of the stream, with no target slot.
    MissingJumpTarget,
    /// The cycle counter reached its machine bound.
    CycleLimit,
}

/// Input/output event: a value bound to a cycle.
pub ghost struct IoPair {
    pub cycle: nat,
    pub value: nat,
}

/// Full machine state after some number of cycles.
pub ghost struct VmState {
    pub cycle: nat,
    pub ip: nat,
    pub mp: nat,
    pub tape: Seq<nat>,
    pub in_pos: nat,
    pub input_rows: Seq<IoPair>,
    pub output_rows: Seq<IoPair>,
}

/// The instruction stream read out of bounds as zero.
pub open spec fn code_at(code: Seq<u64>, i: int) -> nat {
    if 0 <= i < code.len() {
        code[i] as nat
    } else {
        0
    }
}

/// The largest value a tape cell can hold.
pub open spec fn cell_max(bits: nat) -> nat {
    (pow2(bits) - 1) as nat
}

/// The machine's starting state: one zero cell, everything at zero.
pub open spec fn init_state() -> VmState {
    VmState {
        cycle: 0,
        ip: 0,
        mp: 0,
        tape: seq![0nat],
        in_pos: 0,
        input_rows: Seq::empty(),
        output_rows: Seq::empty(),
    }
}

/// Why the next cycle cannot execute, if it cannot; defined for states
/// whose instruction pointer is inside the stream.
pub open spec fn step_error(code: Seq<u64>, input: Seq<u64>, s: VmState) -> Option<RunError> {
    let ci = code_at(code, s.ip as int) as int;
    if !spec_is_opcode(ci as u64) {
        Some(RunError::UnknownOpcode)
    } else if ci == SHL as int && s.mp == 0 {
        Some(RunError::PointerUnderflow)
    } else if ci == GETCHAR as int && s.in_pos >= input.len() {
        Some(RunError::InputExhausted)
    } else if (ci == LB as int || ci == RB as int) && s.ip + 1 >= code.len() {
        Some(RunError::MissingJumpTarget)
    } else {
        None
    }
}

/// One cycle's transition; defined when `step_error` is `None` and the
/// instruction pointer is inside the stream.
pub open spec fn step(code: Seq<u64>, input: Seq<u64>, bits: nat, s: VmState) -> VmState {
    let ci = code_at(code, s.ip as int) as int;
    let v = s.tape[s.mp as int];
    if ci == SHL as int {
        VmState {
            cycle: s.cycle + 1,
            ip: s.ip + 1,
            mp: (s.mp - 1) as nat,
            tape: s.tape,
            in_pos: s.in_pos,
            input_rows: s.input_rows,
            output_rows: s.output_rows,
        }
    } else if ci == SHR as int {
        VmState {
            cycle: s.cycle + 1,
            ip: s.ip + 1,
            mp: s.mp + 1,
            tape: if s.mp + 1 == s.tape.len() {
                s.tape.push(0)
            } else {
                s.tape
            },
            in_pos: s.in_pos,
            input_rows: s.input_rows,
            output_rows: s.output_rows,
        }
    } else if ci == ADD as int {
        VmState {
            cycle: s.cycle + 1,
            ip: s.ip + 1,
            mp: s.mp,
            tape: s.tape.update(
                s.mp as int,
                if v == cell_max(bits) {
                    0
                } else {
                    v + 1
                },
            ),
            in_pos: s.in_pos,
            input_rows: s.input_rows,
            output_rows: s.output_rows,
        }
    } else if ci == SUB as int {
        VmState {
            cycle: s.cycle + 1,
            ip: s.ip + 1,
            mp: s.mp,
            tape: s.tape.update(
                s.mp as int,
                if v == 0 {
                    cell_max(bits)
                } else {
                    (v - 1) as nat
                },
            ),
            in_pos: s.in_pos,
            input_rows: s.input_rows,
            output_rows: s.output_rows,
        }
    } else if ci == GETCHAR as int {
        VmState {
            cycle: s.cycle + 1,
            ip: s.ip + 1,
            mp: s.mp,
            tape: s.tape.update(s.mp as int, input[s.in_pos as int] as nat),
            in_pos: s.in_pos + 1,
            input_rows: s.input_rows.push(
                IoPair { cycle: s.cycle + 1, value: input[s.in_pos as int] as nat },
            ),
            output_rows: s.output_rows,
        }
    } else if ci == PUTCHAR as int {
        VmState {
            cycle: s.cycle + 1,
            ip: s.ip + 1,
            mp: s.mp,
            tape: s.tape,
            in_pos: s.in_pos,
            input_rows: s.input_rows,
            output_rows: s.output_rows.push(IoPair { cycle: s.cycle, value: v }),
        }
    } else if ci == LB as int {
        VmState {
            cycle: s.cycle + 1,
            ip: if v == 0 {
                code_at(code, s.ip as int + 1)
            } else {
                s.ip + 2
            },
            mp: s.mp,
            tape: s.tape,
            in_pos: s.in_pos,
            input_rows: s.input_rows,
            output_rows: s.output_rows,
        }
    } else {
        VmState {
            cycle: s.cycle + 1,
            ip: if v != 0 {
                code_at(code, s.ip as int + 1)
            } else {
                s.ip + 2
            },
            mp: s.mp,
            tape: s.tape,
            in_pos: s.in_pos,
            input_rows: s.input_rows,
            output_rows: s.output_rows,
        }
    }
}

/// The machine state after `n` cycles, or `None` if the machine halted or
/// failed strictly earlier.
pub open spec fn state_at(code: Seq<u64>, input: Seq<u64>, bits: nat, n: nat) -> Option<VmState>
    decreases n,
{
    if n == 0 {
        Some(init_state())
    } else {
        match state_at(code, input, bits, (n - 1) as nat) {
            Option::None => Option::None,
            Option::Some(s) => if s.ip >= code.len() || step_error(code, input, s) is Some {
                Option::None
            } else {
                Option::Some(step(code, input, bits, s))
            },
        }
    }
}

/// The run completes after exactly `n` cycles.
pub open spec fn halted_at(code: Seq<u64>, input: Seq<u64>, bits: nat, n: nat) -> bool {
    &&& state_at(code, input, bits, n) is Some
    &&& state_at(code, input, bits, n).unwrap().ip >= code.len()
}

/// The run fails with `e` when trying to execute cycle `n`.
pub open spec fn fails_at(
    code: Seq<u64>,
    input: Seq<u64>,
    bits: nat,
    n: nat,
    e: RunError,
) -> bool {
    &&& state_at(code, input, bits, n) is Some
    &&& state_at(code, input, bits, n).unwrap().ip < code.len()
    &&& step_error(code, input, state_at(code, input, bits, n).unwrap()) == Some(e)
}

/// States are defined from the start: reaching cycle `n` means every
/// earlier cycle executed.
pub proof fn lemma_state_at_prefix(code: Seq<u64>, input: Seq<u64>, bits: nat, n: nat, k: nat)
    requires
        k <= n,
        state_at(code, input, bits, n) is Some,
    ensures
        state_at(code, input, bits, k) is Some,
    decreases n,
{
    if n > 0 && k < n {
        lemma_state_at_prefix(code, input, bits, (n - 1) as nat, k);
    }
}

/// An input or output table under construction: cycles strictly
/// increasing and below the bound, values within the cell range.
pub open spec fn io_rows_wf(rows: Seq<IoPair>, bound: nat, bits: nat) -> bool {
    &&& forall|i: int, j: int|
        0 <= i < j < rows.len() ==> (#[trigger] rows[i]).cycle < (#[trigger] rows[j]).cycle
    &&& forall|i: int| 0 <= i < rows.len() ==> (#[trigger] rows[i]).cycle < bound
    &&& forall|i: int| 0 <= i < rows.len() ==> (#[trigger] rows[i]).value < pow2(bits)
}

/// The largest cell value, computed executably.
pub fn cell_max_value(bits: u64) -> (r: u64)
    requires
        1 <= bits < 64,
    ensures
        r as nat == cell_max(bits as nat),
{
    proof {
        vstd::bits::lemma_u64_pow2_no_overflow(bits as nat);
        vstd::bits::lemma_u64_shl_is_mul(1u64, bits);
    }
    (1u64 << bits) - 1
}

/// Integer content of one processor-table row.
pub ghost struct ProcRow {
    pub cycle: nat,
    pub ip: nat,
    pub ci: nat,
    pub ni: nat,
    pub mp: nat,
    pub mv: nat,
}

/// The register snapshot a state gives rise to.
pub open spec fn row_of_state(code: Seq<u64>, s: VmState) -> ProcRow {
    ProcRow {
        cycle: s.cycle,
        ip: s.ip,
        ci: code_at(code, s.ip as int),
        ni: code_at(code, s.ip as int + 1),
        mp: s.mp,
        mv: s.tape[s.mp as int],
    }
}

/// The processor-table row of cycle `i`.
pub open spec fn proc_row_at(code: Seq<u64>, input: Seq<u64>, bits: nat, i: nat) -> ProcRow {
    row_of_state(code, state_at(code, input, bits, i).unwrap())
}

/// The inverse witness column is well formed for a cell value: zero for
/// zero, the canonical multiplicative inverse otherwise.
pub open spec fn mvi_wf(mv: nat, mvi: nat) -> bool {
    &&& mvi < field_order()
    &&& mv == 0 ==> mvi == 0
    &&& mv != 0 ==> f_mul(mv, mvi) == 1
}

/// A register view shows exactly a given processor row, with a well
/// formed inverse witness.
pub open spec fn reg_matches(r: RegV, p: ProcRow) -> bool {
    &&& r.cycle == p.cycle
    &&& r.instruction_pointer == p.ip
    &&& r.current_instruction == p.ci
    &&& r.next_instruction == p.ni
    &&& r.memory_pointer == p.mp
    &&& r.memory_value == p.mv
    &&& mvi_wf(p.mv, r.memory_value_inverse)
}

/// The public, preprocessed program table: one row per stream position,
/// plus the terminal position just past the stream, read as zero.
pub open spec fn spec_program_rows(code: Seq<u64>) -> Seq<InstructionMatrixRow> {
    Seq::new(
        (code.len() + 1) as nat,
        |i: int|
            InstructionMatrixRow {
                instruction_pointer: i as u64,
                current_instruction: code_at(code, i) as u64,
                next_instruction: code_at(code, i + 1) as u64,
            },
    )
}

/// The static part of the instruction table: the stream itself.
pub open spec fn static_instr_rows(code: Seq<u64>) -> Seq<InstructionMatrixRow> {
    Seq::new(
        code.len(),
        |i: int|
            InstructionMatrixRow {
                instruction_pointer: i as u64,
                current_instruction: code_at(code, i) as u64,
                next_instruction: code_at(code, i + 1) as u64,
            },
    )
}

/// Instruction-table projection of a processor row.
pub open spec fn instr_row_of(p: ProcRow) -> InstructionMatrixRow {
    InstructionMatrixRow {
        instruction_pointer: p.ip as u64,
        current_instruction: p.ci as u64,
        next_instruction: p.ni as u64,
    }
}

/// Memory-table projection of a processor row.
pub open spec fn mem_row_of(p: ProcRow) -> MemoryMatrixRow {
    MemoryMatrixRow {
        cycle: p.cycle as u64,
        memory_pointer: p.mp as u64,
        memory_value: p.mv as u64,
        interweave_indicator: 0,
    }
}

/// The instruction table before sorting: static rows, then one row per
/// executed cycle and the terminal row.
pub open spec fn unsorted_instr(code: Seq<u64>, input: Seq<u64>, bits: nat, n: nat) -> Seq<
    InstructionMatrixRow,
> {
    static_instr_rows(code) + Seq::new(
        n + 1,
        |i: int| instr_row_of(proc_row_at(code, input, bits, i as nat)),
    )
}

/// The memory table before sorting: one row per executed cycle and the
/// terminal row, in cycle order.
pub open spec fn unsorted_mem(code: Seq<u64>, input: Seq<u64>, bits: nat, n: nat) -> Seq<
    MemoryMatrixRow,
> {
    Seq::new(n + 1, |i: int| mem_row_of(proc_row_at(code, input, bits, i as nat)))
}

/// An input/output table with its gap witnesses filled in.
pub open spec fn with_diff(rows: Seq<IoPair>) -> Seq<IOMatrixRow> {
    Seq::new(
        rows.len(),
        |i: int|
            IOMatrixRow {
                cycle: rows[i].cycle as u64,
                value: rows[i].value as u64,
                diff: if i == 0 {
                    0u64
                } else {
                    (rows[i].cycle - rows[i - 1].cycle - 1) as u64
                },
            },
    )
}

/// What a completed run leaves in the matrix: the five tables of the
/// halted execution, and the untouched program table.
pub open spec fn matrix_matches(
    m: MatrixV,
    code: Seq<u64>,
    input: Seq<u64>,
    bits: nat,
    n: nat,
) -> bool {
    let fin = state_at(code, input, bits, n).unwrap();
    &&& m.processor.len() == n + 1
    &&& forall|i: int|
        0 <= i <= n ==> reg_matches(
            #[trigger] m.processor[i],
            proc_row_at(code, input, bits, i as nat),
        )
    &&& m.instruction == spec_sort_instr(unsorted_instr(code, input, bits, n))
    &&& m.memory == spec_sort_mem(unsorted_mem(code, input, bits, n))
    &&& m.input == with_diff(fin.input_rows)
    &&& m.output == with_diff(fin.output_rows)
    &&& m.program == spec_program_rows(code)
}

/// A successful run halted after `n` cycles and left exactly the tables
/// of that execution.
pub open spec fn run_result_matches(
    m: MatrixV,
    code: Seq<u64>,
    input: Seq<u64>,
    bits: nat,
    n: nat,
) -> bool {
    &&& n <= u64::MAX
    &&& halted_at(code, input, bits, n)
    &&& matrix_matches(m, code, input, bits, n)
}

// ------------------------------------------------------------------
// The interpreter itself.
// ------------------------------------------------------------------

/// Interpreter over a jump-resolved stream: owns the tape, the register
/// and the trace tables while a run is in progress.
pub struct Interpreter {
    pub code: Vec<u64>,
    pub input: Vec<u64>,
    pub memory: Vec<u64>,
    pub register: Register,
    pub matrix: Matrix,
    pub bits: u64,
}

/// A register whose view is all zeros.
pub open spec fn reg_zeroed(r: RegV) -> bool {
    &&& r.cycle == 0
    &&& r.instruction_pointer == 0
    &&& r.current_instruction == 0
    &&& r.next_instruction == 0
    &&& r.memory_pointer == 0
    &&& r.memory_value == 0
    &&& r.memory_value_inverse == 0
}

/// The interpreter is set up for a fresh run: zeroed register, one zero
/// tape cell, empty trace tables, and the program table of its stream.
pub open spec fn ready_to_run(it: Interpreter) -> bool {
    &&& reg_zeroed(it.register@)
    &&& it.memory@ == seq![0u64]
    &&& it.matrix@.processor.len() == 0
    &&& it.matrix@.instruction.len() == 0
    &&& it.matrix@.memory.len() == 0
    &&& it.matrix@.input.len() == 0
    &&& it.matrix@.output.len() == 0
    &&& it.matrix@.program == spec_program_rows(it.code@)
    &&& 1 <= it.bits < 64
    &&& it.code@.len() <= 0xffff_ffff_ffff_fffd
    &&& forall|i: int|
        0 <= i < it.input@.len() ==> (#[trigger] it.input@[i]) < pow2(it.bits as nat)
}


/// The correspondence between the interpreter's mutable pieces and the
/// specification machine's state after `n` cycles.
pub open spec fn exec_inv(
    reg: Register,
    memory: Seq<u64>,
    in_pos: nat,
    input_rows: Seq<IOMatrixRow>,
    output_rows: Seq<IOMatrixRow>,
    code: Seq<u64>,
    input: Seq<u64>,
    bits: nat,
    n: nat,
    st: VmState,
) -> bool {
    &&& state_at(code, input, bits, n) == Some(st)
    &&& st.cycle == n
    &&& st.mp < st.tape.len()
    &&& st.tape.len() <= n + 1
    &&& forall|k: int| 0 <= k < st.tape.len() ==> (#[trigger] st.tape[k]) < pow2(bits)
    &&& st.in_pos == in_pos
    &&& in_pos <= input.len()
    &&& io_rows_wf(st.input_rows, n + 1, bits)
    &&& io_rows_wf(st.output_rows, n, bits)
    &&& reg_matches(reg@, row_of_state(code, st))
    &&& tape_of(memory) == st.tape
    &&& input_rows == with_diff(st.input_rows)
    &&& output_rows == with_diff(st.output_rows)
}

/// The tape a memory vector stands for.
pub open spec fn tape_of(memory: Seq<u64>) -> Seq<nat> {
    memory.map_values(|x: u64| x as nat)
}

/// The fixed environment of a run: a representable stream length, a
/// sensible cell width, and inputs within the cell range.
pub open spec fn run_env(code: Seq<u64>, input: Seq<u64>, bits: nat) -> bool {
    &&& 1 <= bits < 64
    &&& code.len() <= 0xffff_ffff_ffff_fffd
    &&& forall|k: int| 0 <= k < input.len() ==> (#[trigger] input[k]) < pow2(bits)
}

/// Ends a cycle: advances the cycle counter and recomputes the register's
/// instruction pair, cell value and inverse witness from the new pointer.
fn finish_cycle(reg: &mut Register, memory: &Vec<u64>, code: &Vec<u64>)
    requires
        old(reg).cycle < u64::MAX,
        (old(reg).memory_pointer as int) < memory@.len(),
        code@.len() <= 0xffff_ffff_ffff_fffd,
    ensures
        final(reg).cycle == old(reg).cycle + 1,
        final(reg).instruction_pointer == old(reg).instruction_pointer,
        final(reg).memory_pointer == old(reg).memory_pointer,
        final(reg)@.current_instruction == code_at(
            code@,
            old(reg).instruction_pointer as int,
        ),
        final(reg)@.next_instruction == code_at(
            code@,
            old(reg).instruction_pointer as int + 1,
        ),
        final(reg)@.memory_value == memory@[old(reg).memory_pointer as int] as nat,
        mvi_wf(final(reg)@.memory_value, final(reg)@.memory_value_inverse),
{
    let code_len = code.len();
    reg.cycle = reg.cycle + 1;
    let nip = reg.instruction_pointer;
    if nip < code_len as u64 {
        reg.current_instruction = code[nip as usize];
        if nip + 1 < code_len as u64 {
            reg.next_instruction = code[(nip + 1) as usize];
        } else {
            reg.next_instruction = 0;
        }
    } else {
        reg.current_instruction = 0;
        reg.next_instruction = 0;
    }
    proof {
        assert(memory@.len() == memory.len());
    }
    let mpu = reg.memory_pointer as usize;
    reg.memory_value = memory[mpu];
    let mv_fr = fr_from_u64(reg.memory_value);
    reg.memory_value_inverse = fr_invert_or_zero(&mv_fr);
}

/// One pointer-shift-left cycle.
fn do_shl(
    reg: &mut Register,
    memory: &mut Vec<u64>,
    in_pos: &mut usize,
    input_matrix: &mut Vec<IOMatrixRow>,
    output_matrix: &mut Vec<IOMatrixRow>,
    code: &Vec<u64>,
    input: &Vec<u64>,
    bits: u64,
    Ghost(n): Ghost<nat>,
    Ghost(st): Ghost<VmState>,
)
    requires
        run_env(code@, input@, bits as nat),
        exec_inv(
            *old(reg),
            old(memory)@,
            *old(in_pos) as nat,
            old(input_matrix)@,
            old(output_matrix)@,
            code@,
            input@,
            bits as nat,
            n,
            st,
        ),
        st.ip < code@.len(),
        n < u64::MAX,
        code_at(code@, st.ip as int) == SHL as nat,
        st.mp > 0,
    ensures
        step_error(code@, input@, st) is None,
        exec_inv(
            *final(reg),
            final(memory)@,
            *final(in_pos) as nat,
            final(input_matrix)@,
            final(output_matrix)@,
            code@,
            input@,
            bits as nat,
            n + 1,
            step(code@, input@, bits as nat, st),
        ),
{
    proof {
        vstd::arithmetic::power2::lemma_pow2_pos(bits as nat);
    }
    reg.memory_pointer = reg.memory_pointer - 1;
    reg.instruction_pointer = reg.instruction_pointer + 1;
    finish_cycle(reg, memory, code);
    proof {
        let st2 = step(code@, input@, bits as nat, st);
        assert(tape_of(memory@) =~= st2.tape);
        assert(reg_matches(reg@, row_of_state(code@, st2)));
        assert(state_at(code@, input@, bits as nat, n + 1) == Some(st2));
        assert(input_matrix@ =~= with_diff(st2.input_rows));
        assert(output_matrix@ =~= with_diff(st2.output_rows));
    }
}

/// One pointer-shift-right cycle; the tape grows by a zero cell at its end.
fn do_shr(
    reg: &mut Register,
    memory: &mut Vec<u64>,
    in_pos: &mut usize,
    input_matrix: &mut Vec<IOMatrixRow>,
    output_matrix: &mut Vec<IOMatrixRow>,
    code: &Vec<u64>,
    input: &Vec<u64>,
    bits: u64,
    Ghost(n): Ghost<nat>,
    Ghost(st): Ghost<VmState>,
)
    requires
        run_env(code@, input@, bits as nat),
        exec_inv(
            *old(reg),
            old(memory)@,
            *old(in_pos) as nat,
            old(input_matrix)@,
            old(output_matrix)@,
            code@,
            input@,
            bits as nat,
            n,
            st,
        ),
        st.ip < code@.len(),
        n < u64::MAX,
        code_at(code@, st.ip as int) == SHR as nat,
    ensures
        step_error(code@, input@, st) is None,
        exec_inv(
            *final(reg),
            final(memory)@,
            *final(in_pos) as nat,
            final(input_matrix)@,
            final(output_matrix)@,
            code@,
            input@,
            bits as nat,
            n + 1,
            step(code@, input@, bits as nat, st),
        ),
{
    proof {
        vstd::arithmetic::power2::lemma_pow2_pos(bits as nat);
    }
    proof {
        assert(memory@.len() == memory.len());
    }
    reg.memory_pointer = reg.memory_pointer + 1;
    if reg.memory_pointer as usize == memory.len() {
        memory.push(0);
    }
    reg.instruction_pointer = reg.instruction_pointer + 1;
    finish_cycle(reg, memory, code);
    proof {
        let st2 = step(code@, input@, bits as nat, st);
        assert(tape_of(memory@) =~= st2.tape);
        assert(reg_matches(reg@, row_of_state(code@, st2)));
        assert(state_at(code@, input@, bits as nat, n + 1) == Some(st2));
        assert(input_matrix@ =~= with_diff(st2.input_rows));
        assert(output_matrix@ =~= with_diff(st2.output_rows));
    }
}

/// One increment cycle, wrapping at the top of the cell range.
fn do_add(
    reg: &mut Register,
    memory: &mut Vec<u64>,
    in_pos: &mut usize,
    input_matrix: &mut Vec<IOMatrixRow>,
    output_matrix: &mut Vec<IOMatrixRow>,
    code: &Vec<u64>,
    input: &Vec<u64>,
    bits: u64,
    Ghost(n): Ghost<nat>,
    Ghost(st): Ghost<VmState>,
)
    requires
        run_env(code@, input@, bits as nat),
        exec_inv(
            *old(reg),
            old(memory)@,
            *old(in_pos) as nat,
            old(input_matrix)@,
            old(output_matrix)@,
            code@,
            input@,
            bits as nat,
            n,
            st,
        ),
        st.ip < code@.len(),
        n < u64::MAX,
        code_at(code@, st.ip as int) == ADD as nat,
    ensures
        step_error(code@, input@, st) is None,
        exec_inv(
            *final(reg),
            final(memory)@,
            *final(in_pos) as nat,
            final(input_matrix)@,
            final(output_matrix)@,
            code@,
            input@,
            bits as nat,
            n + 1,
            step(code@, input@, bits as nat, st),
        ),
{
    proof {
        vstd::arithmetic::power2::lemma_pow2_pos(bits as nat);
    }
    proof {
        assert(memory@.len() == memory.len());
    }
    let mpu = reg.memory_pointer as usize;
    let maxv = cell_max_value(bits);
    let mv = reg.memory_value;
    if mv == maxv {
        memory.set(mpu, 0);
    } else {
        memory.set(mpu, mv + 1);
    }
    reg.instruction_pointer = reg.instruction_pointer + 1;
    finish_cycle(reg, memory, code);
    proof {
        let st2 = step(code@, input@, bits as nat, st);
        assert(tape_of(memory@) =~= st2.tape);
        assert(reg_matches(reg@, row_of_state(code@, st2)));
        assert(state_at(code@, input@, bits as nat, n + 1) == Some(st2));
        assert(input_matrix@ =~= with_diff(st2.input_rows));
        assert(output_matrix@ =~= with_diff(st2.output_rows));
    }
}

/// One decrement cycle, wrapping at the bottom of the cell range.
fn do_sub(
    reg: &mut Register,
    memory: &mut Vec<u64>,
    in_pos: &mut usize,
    input_matrix: &mut Vec<IOMatrixRow>,
    output_matrix: &mut Vec<IOMatrixRow>,
    code: &Vec<u64>,
    input: &Vec<u64>,
    bits: u64,
    Ghost(n): Ghost<nat>,
    Ghost(st): Ghost<VmState>,
)
    requires
        run_env(code@, input@, bits as nat),
        exec_inv(
            *old(reg),
            old(memory)@,
            *old(in_pos) as nat,
            old(input_matrix)@,
            old(output_matrix)@,
            code@,
            input@,
            bits as nat,
            n,
            st,
        ),
        st.ip < code@.len(),
        n < u64::MAX,
        code_at(code@, st.ip as int) == SUB as nat,
    ensures
        step_error(code@, input@, st) is None,
        exec_inv(
            *final(reg),
            final(memory)@,
            *final(in_pos) as nat,
            final(input_matrix)@,
            final(output_matrix)@,
            code@,
            input@,
            bits as nat,
            n + 1,
            step(code@, input@, bits as nat, st),
        ),
{
    proof {
        vstd::arithmetic::power2::lemma_pow2_pos(bits as nat);
    }
    proof {
        assert(memory@.len() == memory.len());
    }
    let mpu = reg.memory_pointer as usize;
    let maxv = cell_max_value(bits);
    let mv = reg.memory_value;
    if mv == 0 {
        memory.set(mpu, maxv);
    } else {
        memory.set(mpu, mv - 1);
    }
    reg.instruction_pointer = reg.instruction_pointer + 1;
    finish_cycle(reg, memory, code);
    proof {
        let st2 = step(code@, input@, bits as nat, st);
        assert(tape_of(memory@) =~= st2.tape);
        assert(reg_matches(reg@, row_of_state(code@, st2)));
        assert(state_at(code@, input@, bits as nat, n + 1) == Some(st2));
        assert(input_matrix@ =~= with_diff(st2.input_rows));
        assert(output_matrix@ =~= with_diff(st2.output_rows));
    }
}

/// One read cycle: consumes the next input value into the current cell.
fn do_getchar(
    reg: &mut Register,
    memory: &mut Vec<u64>,
    in_pos: &mut usize,
    input_matrix: &mut Vec<IOMatrixRow>,
    output_matrix: &mut Vec<IOMatrixRow>,
    code: &Vec<u64>,
    input: &Vec<u64>,
    bits: u64,
    Ghost(n): Ghost<nat>,
    Ghost(st): Ghost<VmState>,
)
    requires
        run_env(code@, input@, bits as nat),
        exec_inv(
            *old(reg),
            old(memory)@,
            *old(in_pos) as nat,
            old(input_matrix)@,
            old(output_matrix)@,
            code@,
            input@,
            bits as nat,
            n,
            st,
        ),
        st.ip < code@.len(),
        n < u64::MAX,
        code_at(code@, st.ip as int) == GETCHAR as nat,
        st.in_pos < input@.len(),
    ensures
        step_error(code@, input@, st) is None,
        exec_inv(
            *final(reg),
            final(memory)@,
            *final(in_pos) as nat,
            final(input_matrix)@,
            final(output_matrix)@,
            code@,
            input@,
            bits as nat,
            n + 1,
            step(code@, input@, bits as nat, st),
        ),
{
    proof {
        vstd::arithmetic::power2::lemma_pow2_pos(bits as nat);
    }
    proof {
        assert(input@.len() == input.len());
        assert(memory@.len() == memory.len());
    }
    let val = input[*in_pos];
    *in_pos = *in_pos + 1;
    let mpu = reg.memory_pointer as usize;
    memory.set(mpu, val);
    let cyc = reg.cycle + 1;
    let len_in = input_matrix.len();
    let d = if len_in == 0 {
        0
    } else {
        cyc - input_matrix[len_in - 1].cycle - 1
    };
    input_matrix.push(IOMatrixRow { cycle: cyc, value: val, diff: d });
    reg.instruction_pointer = reg.instruction_pointer + 1;
    finish_cycle(reg, memory, code);
    proof {
        let st2 = step(code@, input@, bits as nat, st);
        assert(tape_of(memory@) =~= st2.tape);
        assert(reg_matches(reg@, row_of_state(code@, st2)));
        assert(state_at(code@, input@, bits as nat, n + 1) == Some(st2));
        assert(input_matrix@ =~= with_diff(st2.input_rows));
        assert(output_matrix@ =~= with_diff(st2.output_rows));
    }
}

/// One write cycle: emits the current cell value.
fn do_putchar(
    reg: &mut Register,
    memory: &mut Vec<u64>,
    in_pos: &mut usize,
    input_matrix: &mut Vec<IOMatrixRow>,
    output_matrix: &mut Vec<IOMatrixRow>,
    code: &Vec<u64>,
    input: &Vec<u64>,
    bits: u64,
    Ghost(n): Ghost<nat>,
    Ghost(st): Ghost<VmState>,
)
    requires
        run_env(code@, input@, bits as nat),
        exec_inv(
            *old(reg),
            old(memory)@,
            *old(in_pos) as nat,
            old(input_matrix)@,
            old(output_matrix)@,
            code@,
            input@,
            bits as nat,
            n,
            st,
        ),
        st.ip < code@.len(),
        n < u64::MAX,
        code_at(code@, st.ip as int) == PUTCHAR as nat,
    ensures
        step_error(code@, input@, st) is None,
        exec_inv(
            *final(reg),
            final(memory)@,
            *final(in_pos) as nat,
            final(input_matrix)@,
            final(output_matrix)@,
            code@,
            input@,
            bits as nat,
            n + 1,
            step(code@, input@, bits as nat, st),
        ),
{
    proof {
        vstd::arithmetic::power2::lemma_pow2_pos(bits as nat);
    }
    let mv = reg.memory_value;
    let cyc = reg.cycle;
    let len_out = output_matrix.len();
    let d = if len_out == 0 {
        0
    } else {
        cyc - output_matrix[len_out - 1].cycle - 1
    };
    output_matrix.push(IOMatrixRow { cycle: cyc, value: mv, diff: d });
    reg.instruction_pointer = reg.instruction_pointer + 1;
    finish_cycle(reg, memory, code);
    proof {
        let st2 = step(code@, input@, bits as nat, st);
        assert(tape_of(memory@) =~= st2.tape);
        assert(reg_matches(reg@, row_of_state(code@, st2)));
        assert(state_at(code@, input@, bits as nat, n + 1) == Some(st2));
        assert(input_matrix@ =~= with_diff(st2.input_rows));
        assert(output_matrix@ =~= with_diff(st2.output_rows));
    }
}

/// One forward-jump cycle: to the resolved target on a zero cell, past the pair otherwise.
fn do_lb(
    reg: &mut Register,
    memory: &mut Vec<u64>,
    in_pos: &mut usize,
    input_matrix: &mut Vec<IOMatrixRow>,
    output_matrix: &mut Vec<IOMatrixRow>,
    code: &Vec<u64>,
    input: &Vec<u64>,
    bits: u64,
    Ghost(n): Ghost<nat>,
    Ghost(st): Ghost<VmState>,
)
    requires
        run_env(code@, input@, bits as nat),
        exec_inv(
            *old(reg),
            old(memory)@,
            *old(in_pos) as nat,
            old(input_matrix)@,
            old(output_matrix)@,
            code@,
            input@,
            bits as nat,
            n,
            st,
        ),
        st.ip < code@.len(),
        n < u64::MAX,
        code_at(code@, st.ip as int) == LB as nat,
        st.ip + 1 < code@.len(),
    ensures
        step_error(code@, input@, st) is None,
        exec_inv(
            *final(reg),
            final(memory)@,
            *final(in_pos) as nat,
            final(input_matrix)@,
            final(output_matrix)@,
            code@,
            input@,
            bits as nat,
            n + 1,
            step(code@, input@, bits as nat, st),
        ),
{
    proof {
        vstd::arithmetic::power2::lemma_pow2_pos(bits as nat);
    }
    proof {
        assert(code@.len() == code.len());
    }
    let mv = reg.memory_value;
    if mv == 0 {
        let t = code[(reg.instruction_pointer + 1) as usize];
        reg.instruction_pointer = t;
    } else {
        reg.instruction_pointer = reg.instruction_pointer + 2;
    }
    finish_cycle(reg, memory, code);
    proof {
        let st2 = step(code@, input@, bits as nat, st);
        assert(tape_of(memory@) =~= st2.tape);
        assert(reg_matches(reg@, row_of_state(code@, st2)));
        assert(state_at(code@, input@, bits as nat, n + 1) == Some(st2));
        assert(input_matrix@ =~= with_diff(st2.input_rows));
        assert(output_matrix@ =~= with_diff(st2.output_rows));
    }
}

/// One backward-jump cycle: to the resolved target on a nonzero cell, past the pair otherwise.
fn do_rb(
    reg: &mut Register,
    memory: &mut Vec<u64>,
    in_pos: &mut usize,
    input_matrix: &mut Vec<IOMatrixRow>,
    output_matrix: &mut Vec<IOMatrixRow>,
    code: &Vec<u64>,
    input: &Vec<u64>,
    bits: u64,
    Ghost(n): Ghost<nat>,
    Ghost(st): Ghost<VmState>,
)
    requires
        run_env(code@, input@, bits as nat),
        exec_inv(
            *old(reg),
            old(memory)@,
            *old(in_pos) as nat,
            old(input_matrix)@,
            old(output_matrix)@,
            code@,
            input@,
            bits as nat,
            n,
            st,
        ),
        st.ip < code@.len(),
        n < u64::MAX,
        code_at(code@, st.ip as int) == RB as nat,
        st.ip + 1 < code@.len(),
    ensures
        step_error(code@, input@, st) is None,
        exec_inv(
            *final(reg),
            final(memory)@,
            *final(in_pos) as nat,
            final(input_matrix)@,
            final(output_matrix)@,
            code@,
            input@,
            bits as nat,
            n + 1,
            step(code@, input@, bits as nat, st),
        ),
{
    proof {
        vstd::arithmetic::power2::lemma_pow2_pos(bits as nat);
    }
    proof {
        assert(code@.len() == code.len());
    }
    let mv = reg.memory_value;
    if mv != 0 {
        let t = code[(reg.instruction_pointer + 1) as usize];
        reg.instruction_pointer = t;
    } else {
        reg.instruction_pointer = reg.instruction_pointer + 2;
    }
    finish_cycle(reg, memory, code);
    proof {
        let st2 = step(code@, input@, bits as nat, st);
        assert(tape_of(memory@) =~= st2.tape);
        assert(reg_matches(reg@, row_of_state(code@, st2)));
        assert(state_at(code@, input@, bits as nat, n + 1) == Some(st2));
        assert(input_matrix@ =~= with_diff(st2.input_rows));
        assert(output_matrix@ =~= with_diff(st2.output_rows));
    }
}

/// Executes one cycle: dispatches on the current opcode, or reports why
/// the cycle cannot execute.
fn exec_one(
    reg: &mut Register,
    memory: &mut Vec<u64>,
    in_pos: &mut usize,
    input_matrix: &mut Vec<IOMatrixRow>,
    output_matrix: &mut Vec<IOMatrixRow>,
    code: &Vec<u64>,
    input: &Vec<u64>,
    bits: u64,
    Ghost(n): Ghost<nat>,
    Ghost(st): Ghost<VmState>,
) -> (r: Result<(), RunError>)
    requires
        run_env(code@, input@, bits as nat),
        exec_inv(
            *old(reg),
            old(memory)@,
            *old(in_pos) as nat,
            old(input_matrix)@,
            old(output_matrix)@,
            code@,
            input@,
            bits as nat,
            n,
            st,
        ),
        st.ip < code@.len(),
        n < u64::MAX,
    ensures
        match r {
            Ok(()) => exec_inv(
                *final(reg),
                final(memory)@,
                *final(in_pos) as nat,
                final(input_matrix)@,
                final(output_matrix)@,
                code@,
                input@,
                bits as nat,
                n + 1,
                step(code@, input@, bits as nat, st),
            ),
            Err(e) => e != RunError::CycleLimit && step_error(code@, input@, st) == Some(e),
        },
{
    let ci = reg.current_instruction;
    if ci == SHL as u64 {
        if reg.memory_pointer == 0 {
            return Err(RunError::PointerUnderflow);
        }
        do_shl(reg, memory, in_pos, input_matrix, output_matrix, code, input, bits, Ghost(n), Ghost(st));
    } else if ci == SHR as u64 {
        do_shr(reg, memory, in_pos, input_matrix, output_matrix, code, input, bits, Ghost(n), Ghost(st));
    } else if ci == ADD as u64 {
        do_add(reg, memory, in_pos, input_matrix, output_matrix, code, input, bits, Ghost(n), Ghost(st));
    } else if ci == SUB as u64 {
        do_sub(reg, memory, in_pos, input_matrix, output_matrix, code, input, bits, Ghost(n), Ghost(st));
    } else if ci == GETCHAR as u64 {
        if *in_pos >= input.len() {
            return Err(RunError::InputExhausted);
        }
        do_getchar(reg, memory, in_pos, input_matrix, output_matrix, code, input, bits, Ghost(n), Ghost(st));
    } else if ci == PUTCHAR as u64 {
        do_putchar(reg, memory, in_pos, input_matrix, output_matrix, code, input, bits, Ghost(n), Ghost(st));
    } else if ci == LB as u64 {
        if reg.instruction_pointer + 1 >= code.len() as u64 {
            return Err(RunError::MissingJumpTarget);
        }
        do_lb(reg, memory, in_pos, input_matrix, output_matrix, code, input, bits, Ghost(n), Ghost(st));
    } else if ci == RB as u64 {
        if reg.instruction_pointer + 1 >= code.len() as u64 {
            return Err(RunError::MissingJumpTarget);
        }
        do_rb(reg, memory, in_pos, input_matrix, output_matrix, code, input, bits, Ghost(n), Ghost(st));
    } else {
        return Err(RunError::UnknownOpcode);
    }
    Ok(())
}

impl Interpreter {
    /// A fresh interpreter with an empty stream and the default cell
    /// width of eight bits.
    pub fn new() -> (r: Interpreter)
        ensures
            r.code@.len() == 0,
            r.input@.len() == 0,
            r.bits == 8,
            ready_to_run(r),
    {
        let r = Interpreter {
            code: Vec::new(),
            input: Vec::new(),
            memory: vec![0u64],
            register: Register {
                cycle: 0,
                instruction_pointer: 0,
                current_instruction: 0,
                next_instruction: 0,
                memory_pointer: 0,
                memory_value: 0,
                memory_value_inverse: fr_from_u64(0),
            },
            matrix: Matrix {
                processor_matrix: Vec::new(),
                instruction_matrix: Vec::new(),
                memory_matrix: Vec::new(),
                input_matrix: Vec::new(),
                output_matrix: Vec::new(),
                program: vec![
                    InstructionMatrixRow {
                        instruction_pointer: 0,
                        current_instruction: 0,
                        next_instruction: 0,
                    },
                ],
            },
            bits: 8,
        };
        proof {
            assert(r.memory@ =~= seq![0u64]);
            assert(r.matrix@.program =~= spec_program_rows(r.code@));
        }
        r
    }

    /// Installs an instruction stream and derives the program table from
    /// it: one row per position, each with the value there and the value
    /// after it, and the terminal row just past the stream.
    pub fn set_code(&mut self, code: Vec<u64>)
        requires
            code@.len() <= 0xffff_ffff_ffff_fffd,
        ensures
            final(self).code@ == code@,
            final(self).matrix@.program == spec_program_rows(code@),
            final(self).input == old(self).input,
            final(self).memory == old(self).memory,
            final(self).register == old(self).register,
            final(self).bits == old(self).bits,
            final(self).matrix@.processor == old(self).matrix@.processor,
            final(self).matrix@.instruction == old(self).matrix@.instruction,
            final(self).matrix@.memory == old(self).matrix@.memory,
            final(self).matrix@.input == old(self).matrix@.input,
            final(self).matrix@.output == old(self).matrix@.output,
    {
        let n = code.len();
        let mut program: Vec<InstructionMatrixRow> = Vec::new();
        let mut i: usize = 0;
        while i < n
            invariant
                i <= n,
                n == code@.len() <= 0xffff_ffff_ffff_fffd,
                program@ =~= spec_program_rows(code@).subrange(0, i as int),
            decreases n - i,
        {
            let ci = code[i];
            let ni = if i + 1 < n {
                code[i + 1]
            } else {
                0
            };
            program.push(
                InstructionMatrixRow {
                    instruction_pointer: i as u64,
                    current_instruction: ci,
                    next_instruction: ni,
                },
            );
            proof {
                assert(program@ =~= spec_program_rows(code@).subrange(0, i + 1));
            }
            i = i + 1;
        }
        program.push(
            InstructionMatrixRow {
                instruction_pointer: n as u64,
                current_instruction: 0,
                next_instruction: 0,
            },
        );
        proof {
            assert(program@ =~= spec_program_rows(code@));
        }
        self.code = code;
        self.matrix.program = program;
    }

    /// Installs the input queue.
    pub fn set_input(&mut self, input: Vec<u64>)
        ensures
            final(self).input@ == input@,
            final(self).code == old(self).code,
            final(self).memory == old(self).memory,
            final(self).register == old(self).register,
            final(self).matrix == old(self).matrix,
            final(self).bits == old(self).bits,
    {
        self.input = input;
    }

    /// Executes the stream until the instruction pointer leaves it.
    ///
    /// On success the matrix holds exactly the tables of the halted
    /// execution of the specification machine: the processor table with
    /// one row per cycle plus the terminal row, the sorted instruction
    /// and memory tables, and the input and output tables with their gap
    /// witnesses.  On failure the error names the first cycle that could
    /// not execute.
    #[verifier::loop_isolation(false)]
    #[verifier::rlimit(100)]
    pub fn run(&mut self) -> (r: Result<(), RunError>)
        requires
            ready_to_run(*old(self)),
        ensures
            final(self).code@ == old(self).code@,
            final(self).input@ == old(self).input@,
            final(self).bits == old(self).bits,
            final(self).matrix@.program == old(self).matrix@.program,
            match r {
                Ok(()) => exists|k: nat|
                    run_result_matches(
                        final(self).matrix@,
                        old(self).code@,
                        old(self).input@,
                        old(self).bits as nat,
                        k,
                    ),
                Err(e) => if e == RunError::CycleLimit {
                    forall|k: nat|
                        k <= u64::MAX ==> state_at(
                            old(self).code@,
                            old(self).input@,
                            old(self).bits as nat,
                            k,
                        ) is Some
                } else {
                    exists|k: nat|
                        fails_at(old(self).code@, old(self).input@, old(self).bits as nat, k, e)
                },
            },
    {
        let ghost c = self.code@;
        let ghost inp = self.input@;
        let ghost bitsn = self.bits as nat;
        let ghost prog = self.matrix@.program;
        let code_len: usize = self.code.len();

        proof {
            vstd::arithmetic::power2::lemma_pow2_pos(bitsn);
        }

        // Initial register: the first instruction and its successor.
        if code_len > 0 {
            self.register.current_instruction = self.code[0];
            if code_len > 1 {
                self.register.next_instruction = self.code[1];
            } else {
                self.register.next_instruction = 0;
            }
        }

        // Static instruction rows: the stream itself, one row per position.
        let mut i: usize = 0;
        proof {
            assert(self.matrix@.instruction =~= static_instr_rows(c).subrange(0, 0));
        }
        while i < code_len
            invariant
                i <= code_len,
                code_len == c.len() <= 0xffff_ffff_ffff_fffd,
                self.code@ == c,
                self.input@ == inp,
                self.bits as nat == bitsn,
                self.memory@ == seq![0u64],
                self.register == old(self).register || true,
                self.matrix@.program == prog,
                self.matrix@.processor.len() == 0,
                self.matrix@.memory.len() == 0,
                self.matrix@.input.len() == 0,
                self.matrix@.output.len() == 0,
                self.matrix@.instruction =~= static_instr_rows(c).subrange(0, i as int),
                self.register@.cycle == 0,
                self.register@.instruction_pointer == 0,
                self.register@.memory_pointer == 0,
                self.register@.memory_value == 0,
                self.register@.memory_value_inverse == 0,
                self.register@.current_instruction == code_at(c, 0),
                self.register@.next_instruction == code_at(c, 1),
            decreases code_len - i,
        {
            let ni = if i + 1 < code_len {
                self.code[i + 1]
            } else {
                0
            };
            self.matrix.instruction_matrix.push(
                InstructionMatrixRow {
                    instruction_pointer: i as u64,
                    current_instruction: self.code[i],
                    next_instruction: ni,
                },
            );
            proof {
                assert(self.matrix@.instruction =~= static_instr_rows(c).subrange(0, i + 1));
            }
            i = i + 1;
        }
        proof {
            assert(static_instr_rows(c).subrange(0, code_len as int) =~= static_instr_rows(c));
        }

        let ghost mut st: VmState = init_state();
        let ghost mut n: nat = 0;
        let mut in_pos: usize = 0;

        proof {
            assert(tape_of(self.memory@) =~= st.tape);
            assert(self.matrix@.processor =~= Seq::<RegV>::empty());
            assert(self.matrix@.input =~= with_diff(st.input_rows));
            assert(self.matrix@.output =~= with_diff(st.output_rows));
            assert(self.matrix@.memory =~= Seq::<MemoryMatrixRow>::empty());
        }

        while self.register.instruction_pointer < code_len as u64
            invariant
                code_len == c.len() <= 0xffff_ffff_ffff_fffd,
                1 <= bitsn < 64,
                forall|k: int| 0 <= k < inp.len() ==> (#[trigger] inp[k]) < pow2(bitsn),
                self.code@ == c,
                self.input@ == inp,
                self.bits as nat == bitsn,
                self.matrix@.program == prog,
                exec_inv(
                    self.register,
                    self.memory@,
                    in_pos as nat,
                    self.matrix@.input,
                    self.matrix@.output,
                    c,
                    inp,
                    bitsn,
                    n,
                    st,
                ),
                self.matrix@.processor.len() == n,
                forall|k: int|
                    0 <= k < n ==> reg_matches(
                        #[trigger] self.matrix@.processor[k],
                        proc_row_at(c, inp, bitsn, k as nat),
                    ),
                self.matrix@.instruction =~= static_instr_rows(c) + Seq::new(
                    n,
                    |j: int| instr_row_of(proc_row_at(c, inp, bitsn, j as nat)),
                ),
                self.matrix@.memory =~= Seq::new(
                    n,
                    |j: int| mem_row_of(proc_row_at(c, inp, bitsn, j as nat)),
                ),
            decreases u64::MAX - self.register.cycle,
        {
            if self.register.cycle == u64::MAX {
                proof {
                    assert forall|k: nat| k <= u64::MAX implies state_at(c, inp, bitsn, k) is Some by {
                        lemma_state_at_prefix(c, inp, bitsn, n, k);
                    }
                }
                return Err(RunError::CycleLimit);
            }

            // Pre-execution snapshot of this cycle.
            let ghost procs0 = self.matrix@.processor;
            let snap = Register {
                cycle: self.register.cycle,
                instruction_pointer: self.register.instruction_pointer,
                current_instruction: self.register.current_instruction,
                next_instruction: self.register.next_instruction,
                memory_pointer: self.register.memory_pointer,
                memory_value: self.register.memory_value,
                memory_value_inverse: self.register.memory_value_inverse,
            };
            self.matrix.processor_matrix.push(snap);
            self.matrix.instruction_matrix.push(
                InstructionMatrixRow {
                    instruction_pointer: self.register.instruction_pointer,
                    current_instruction: self.register.current_instruction,
                    next_instruction: self.register.next_instruction,
                },
            );
            self.matrix.memory_matrix.push(
                MemoryMatrixRow {
                    cycle: self.register.cycle,
                    memory_pointer: self.register.memory_pointer,
                    memory_value: self.register.memory_value,
                    interweave_indicator: 0,
                },
            );
            proof {
                assert(self.matrix@.processor =~= procs0.push(snap@));
                assert(reg_matches(snap@, proc_row_at(c, inp, bitsn, n)));
                assert(self.matrix@.instruction =~= static_instr_rows(c) + Seq::new(
                    n + 1,
                    |j: int| instr_row_of(proc_row_at(c, inp, bitsn, j as nat)),
                ));
                assert(self.matrix@.memory =~= Seq::new(
                    n + 1,
                    |j: int| mem_row_of(proc_row_at(c, inp, bitsn, j as nat)),
                ));
            }

            let res = exec_one(
                &mut self.register,
                &mut self.memory,
                &mut in_pos,
                &mut self.matrix.input_matrix,
                &mut self.matrix.output_matrix,
                &self.code,
                &self.input,
                self.bits,
                Ghost(n),
                Ghost(st),
            );
            match res {
                Ok(()) => {},
                Err(e) => {
                    proof {
                        assert(fails_at(c, inp, bitsn, n, e));
                    }
                    return Err(e);
                },
            }
            proof {
                st = step(c, inp, bitsn, st);
                n = n + 1;
            }
        }

        // Terminal snapshot: the halted state, recorded once more.
        let ghost procs0 = self.matrix@.processor;
        let snap = Register {
            cycle: self.register.cycle,
            instruction_pointer: self.register.instruction_pointer,
            current_instruction: self.register.current_instruction,
            next_instruction: self.register.next_instruction,
            memory_pointer: self.register.memory_pointer,
            memory_value: self.register.memory_value,
            memory_value_inverse: self.register.memory_value_inverse,
        };
        self.matrix.processor_matrix.push(snap);
        self.matrix.memory_matrix.push(
            MemoryMatrixRow {
                cycle: self.register.cycle,
                memory_pointer: self.register.memory_pointer,
                memory_value: self.register.memory_value,
                interweave_indicator: 0,
            },
        );
        self.matrix.instruction_matrix.push(
            InstructionMatrixRow {
                instruction_pointer: self.register.instruction_pointer,
                current_instruction: self.register.current_instruction,
                next_instruction: self.register.next_instruction,
            },
        );
        proof {
            assert(halted_at(c, inp, bitsn, n));
            assert(self.matrix@.processor =~= procs0.push(snap@));
            assert(reg_matches(snap@, proc_row_at(c, inp, bitsn, n)));
            assert(self.matrix@.instruction =~= unsorted_instr(c, inp, bitsn, n));
            assert(self.matrix@.memory =~= unsorted_mem(c, inp, bitsn, n));
        }
        let sorted_i = sort_instruction_rows(&self.matrix.instruction_matrix);
        self.matrix.instruction_matrix = sorted_i;
        let sorted_m = sort_memory_rows(&self.matrix.memory_matrix);
        self.matrix.memory_matrix = sorted_m;
        proof {
            assert(matrix_matches(self.matrix@, c, inp, bitsn, n));
            assert(run_result_matches(self.matrix@, c, inp, bitsn, n));
        }
        Ok(())
    }

    /// Sets the cell width in bits.
    pub fn set_bits(&mut self, bits: u64)
        ensures
            final(self).bits == bits,
            final(self).code == old(self).code,
            final(self).input == old(self).input,
            final(self).memory == old(self).memory,
            final(self).register == old(self).register,
            final(self).matrix == old(self).matrix,
    {
        self.bits = bits;
    }
}

} // verus!
