use vstd::prelude::*;

use crate::field::{
    f_add, f_mul, f_sub, fr_add, fr_eq, fr_from_u64, fr_mul, fr_sub, fr_value,
};
use crate::interpreter::{cell_max, cell_max_value, RegV, Register};
use crate::matrix::{regs_of, IOMatrixRow, InstructionMatrixRow, Matrix, MatrixV, MemoryMatrixRow};
use crate::{ADD, GETCHAR, LB, PUTCHAR, RB, SHL, SHR, SUB};
use halo2curves::bn256::Fr;
use vstd::arithmetic::power2::pow2;

verus! {

broadcast use crate::matrix::lemma_regs_of_index, crate::matrix::lemma_regs_of_len;

// The arithmetized constraint system.  Each gate is a polynomial over the
// field, written here as a specification-level value in
// `[0, field_order())`; a gate holds on a row pair when that value is the
// field's zero.  The executable checker evaluates the same polynomials
// with real field arithmetic and decides every gate and lookup exactly:
// it is the assignment-checking oracle for a set of concrete tables.

/// The eight opcodes in their fixed order: shift left, shift right,
/// increment, decrement, read, write, forward jump, backward jump.
pub open spec fn op_val(k: nat) -> nat {
    if k == 0 {
        SHL as nat
    } else if k == 1 {
        SHR as nat
    } else if k == 2 {
        ADD as nat
    } else if k == 3 {
        SUB as nat
    } else if k == 4 {
        GETCHAR as nat
    } else if k == 5 {
        PUTCHAR as nat
    } else if k == 6 {
        LB as nat
    } else {
        RB as nat
    }
}

/// Executable table of the opcode order above.
pub fn op_value(k: usize) -> (r: u64)
    requires
        k < 8,
    ensures
        r as nat == op_val(k as nat),
{
    if k == 0 {
        SHL as u64
    } else if k == 1 {
        SHR as u64
    } else if k == 2 {
        ADD as u64
    } else if k == 3 {
        SUB as u64
    } else if k == 4 {
        GETCHAR as u64
    } else if k == 5 {
        PUTCHAR as u64
    } else if k == 6 {
        LB as u64
    } else {
        RB as u64
    }
}

/// Partial deselector product: the factors `ci - op` for the first `j`
/// opcodes, skipping opcode `k`.
pub open spec fn desel_partial(ci: nat, k: nat, j: nat) -> nat
    decreases j,
{
    if j == 0 {
        1
    } else {
        let prev = desel_partial(ci, k, (j - 1) as nat);
        if k == j - 1 {
            prev
        } else {
            f_mul(prev, f_sub(ci, op_val((j - 1) as nat)))
        }
    }
}

/// The deselector of opcode `k`: the product of `ci - op` over the seven
/// other opcodes.  It vanishes on every row whose opcode is one of those
/// seven, and multiplexes opcode `k`'s rule into the shared gate.
pub open spec fn deselector(ci: nat, k: nat) -> nat {
    desel_partial(ci, k, 8)
}

/// Executable deselector, evaluated in the field.
#[verifier::loop_isolation(false)]
pub fn deselector_fr(ci_f: &Fr, k: usize) -> (r: Fr)
    requires
        k < 8,
    ensures
        fr_value(r) == deselector(fr_value(*ci_f), k as nat),
{
    let mut acc = fr_from_u64(1);
    let mut j: usize = 0;
    while j < 8
        invariant
            j <= 8,
            k < 8,
            fr_value(acc) == desel_partial(fr_value(*ci_f), k as nat, j as nat),
        decreases 8 - j,
    {
        if j != k {
            let opf = fr_from_u64(op_value(j));
            let factor = fr_sub(ci_f, &opf);
            acc = fr_mul(&acc, &factor);
        }
        j = j + 1;
    }
    acc
}

/// The is-zero indicator of a row: one minus the cell value times its
/// inverse witness.  It is one on a zero cell and zero on a nonzero cell
/// whose witness is the true inverse.
pub open spec fn iz_ind(r: RegV) -> nat {
    f_sub(1, f_mul(r.memory_value, r.memory_value_inverse))
}

/// Cycle gate: the next cycle counter is this one plus one.
pub open spec fn gate_clk(r: RegV, s: RegV) -> nat {
    f_sub(f_sub(s.cycle, r.cycle), 1)
}

/// First is-zero relation: `mv * (mv * mv_inv - 1)`.
pub open spec fn gate_iz_a(r: RegV) -> nat {
    f_mul(r.memory_value, f_sub(f_mul(r.memory_value, r.memory_value_inverse), 1))
}

/// Second is-zero relation: `mv_inv * (mv * mv_inv - 1)`.
pub open spec fn gate_iz_b(r: RegV) -> nat {
    f_mul(r.memory_value_inverse, f_sub(f_mul(r.memory_value, r.memory_value_inverse), 1))
}

/// Sum of the deselectors of the six opcodes that advance the
/// instruction pointer by one.
pub open spec fn sum_ip_simple(ci: nat) -> nat {
    f_add(
        f_add(
            f_add(f_add(f_add(deselector(ci, 2), deselector(ci, 3)), deselector(ci, 1)), deselector(ci, 0)),
            deselector(ci, 4),
        ),
        deselector(ci, 5),
    )
}

/// Instruction-pointer gate: plus one for the six plain opcodes; for the
/// jumps, the is-zero indicator selects between skipping the pair and the
/// resolved target held in the next-instruction column.
pub open spec fn gate_ip(r: RegV, s: RegV) -> nat {
    let iz = iz_ind(r);
    let ci = r.current_instruction;
    let e1 = f_mul(
        sum_ip_simple(ci),
        f_sub(f_sub(s.instruction_pointer, r.instruction_pointer), 1),
    );
    let elb = f_mul(
        deselector(ci, 6),
        f_add(
            f_mul(f_sub(1, iz), f_sub(f_sub(s.instruction_pointer, r.instruction_pointer), 2)),
            f_mul(iz, f_sub(s.instruction_pointer, r.next_instruction)),
        ),
    );
    let erb = f_mul(
        deselector(ci, 7),
        f_add(
            f_mul(iz, f_sub(f_sub(s.instruction_pointer, r.instruction_pointer), 2)),
            f_mul(f_sub(1, iz), f_sub(s.instruction_pointer, r.next_instruction)),
        ),
    );
    f_add(f_add(e1, elb), erb)
}

/// Sum of the deselectors of the six opcodes that keep the memory
/// pointer unchanged.
pub open spec fn sum_mp_stay(ci: nat) -> nat {
    f_add(
        f_add(
            f_add(f_add(f_add(deselector(ci, 2), deselector(ci, 3)), deselector(ci, 6)), deselector(ci, 7)),
            deselector(ci, 4),
        ),
        deselector(ci, 5),
    )
}

/// Memory-pointer gate: unchanged, minus one for shift left, plus one
/// for shift right.
pub open spec fn gate_mp(r: RegV, s: RegV) -> nat {
    let ci = r.current_instruction;
    f_add(
        f_add(
            f_mul(sum_mp_stay(ci), f_sub(s.memory_pointer, r.memory_pointer)),
            f_mul(deselector(ci, 0), f_add(f_sub(s.memory_pointer, r.memory_pointer), 1)),
        ),
        f_mul(deselector(ci, 1), f_sub(f_sub(s.memory_pointer, r.memory_pointer), 1)),
    )
}

/// Sum of the deselectors of the three opcodes that keep the cell value
/// unchanged.
pub open spec fn sum_mv_stay(ci: nat) -> nat {
    f_add(f_add(deselector(ci, 6), deselector(ci, 7)), deselector(ci, 5))
}

/// Memory-value gate: unchanged for jumps and write; for increment and
/// decrement the delta is one in the right direction, or the wraparound
/// delta across the cell range, the product of the two difference terms
/// expressing the disjunction.
pub open spec fn gate_mv(r: RegV, s: RegV, bits: nat) -> nat {
    let ci = r.current_instruction;
    let m = cell_max(bits);
    f_add(
        f_add(
            f_mul(sum_mv_stay(ci), f_sub(s.memory_value, r.memory_value)),
            f_mul(
                f_mul(deselector(ci, 2), f_sub(f_sub(s.memory_value, r.memory_value), 1)),
                f_add(f_sub(s.memory_value, r.memory_value), m),
            ),
        ),
        f_mul(
            f_mul(deselector(ci, 3), f_add(f_sub(s.memory_value, r.memory_value), 1)),
            f_sub(f_sub(s.memory_value, r.memory_value), m),
        ),
    )
}

/// All transition gates of one processor row pair.
pub open spec fn processor_transition_ok(r: RegV, s: RegV, bits: nat) -> bool {
    &&& gate_clk(r, s) == 0
    &&& gate_iz_a(r) == 0
    &&& gate_iz_b(r) == 0
    &&& gate_ip(r, s) == 0
    &&& gate_mp(r, s) == 0
    &&& gate_mv(r, s, bits) == 0
}

/// Boundary gate, enabled on the first row only: cycle, instruction
/// pointer, memory pointer and cell value are all zero.
pub open spec fn processor_boundary_ok(proc: Seq<RegV>) -> bool {
    proc.len() > 0 ==> {
        &&& proc[0].cycle == 0
        &&& proc[0].instruction_pointer == 0
        &&& proc[0].memory_pointer == 0
        &&& proc[0].memory_value == 0
    }
}

/// Transition gates, enabled on every row pair.
pub open spec fn processor_gates_ok(proc: Seq<RegV>, bits: nat) -> bool {
    forall|i: int|
        0 <= i && i + 1 < proc.len() ==> processor_transition_ok(
            #[trigger] proc[i],
            proc[i + 1],
            bits,
        )
}

/// Range lookup: every cell value of the processor table is in range.
pub open spec fn processor_range_ok(proc: Seq<RegV>, bits: nat) -> bool {
    forall|i: int| 0 <= i < proc.len() ==> (#[trigger] proc[i]).memory_value < pow2(bits)
}

/// A program-table row with the given triple.
pub open spec fn program_has(
    program: Seq<InstructionMatrixRow>,
    ip: nat,
    ci: nat,
    ni: nat,
) -> bool {
    exists|j: int|
        0 <= j < program.len() && (#[trigger] program[j]).instruction_pointer as nat == ip
            && program[j].current_instruction as nat == ci && program[j].next_instruction as nat
            == ni
}

/// Program lookup for the processor table: every row's instruction
/// triple is part of the real program.
pub open spec fn processor_in_program(proc: Seq<RegV>, program: Seq<InstructionMatrixRow>) -> bool {
    forall|i: int|
        0 <= i < proc.len() ==> program_has(
            program,
            (#[trigger] proc[i]).instruction_pointer,
            proc[i].current_instruction,
            proc[i].next_instruction,
        )
}

/// Program lookup for the instruction table: every sorted row occurs in
/// the program table.
pub open spec fn instruction_in_program(
    instr: Seq<InstructionMatrixRow>,
    program: Seq<InstructionMatrixRow>,
) -> bool {
    forall|i: int|
        0 <= i < instr.len() ==> program_has(
            program,
            (#[trigger] instr[i]).instruction_pointer as nat,
            instr[i].current_instruction as nat,
            instr[i].next_instruction as nat,
        )
}

/// First memory gate: the address delta is zero or one.
pub open spec fn mem_gate_delta(a: MemoryMatrixRow, b: MemoryMatrixRow) -> nat {
    f_mul(
        f_sub(f_sub(b.memory_pointer as nat, a.memory_pointer as nat), 1),
        f_sub(b.memory_pointer as nat, a.memory_pointer as nat),
    )
}

/// Second memory gate: a fresh address starts with a zero value.
pub open spec fn mem_gate_fresh(a: MemoryMatrixRow, b: MemoryMatrixRow) -> nat {
    f_mul(f_sub(b.memory_pointer as nat, a.memory_pointer as nat), b.memory_value as nat)
}

/// Third memory gate: at an unchanged address, the value is unchanged or
/// the cycle advances by exactly one.
pub open spec fn mem_gate_stay(a: MemoryMatrixRow, b: MemoryMatrixRow) -> nat {
    f_mul(
        f_mul(
            f_sub(f_sub(b.memory_pointer as nat, a.memory_pointer as nat), 1),
            f_sub(a.memory_value as nat, b.memory_value as nat),
        ),
        f_sub(f_sub(b.cycle as nat, a.cycle as nat), 1),
    )
}

/// Address-continuity gates over the sorted memory table.
pub open spec fn memory_gates_ok(mem: Seq<MemoryMatrixRow>) -> bool {
    forall|i: int|
        0 <= i && i + 1 < mem.len() ==> {
            &&& mem_gate_delta(#[trigger] mem[i], mem[i + 1]) == 0
            &&& mem_gate_fresh(mem[i], mem[i + 1]) == 0
            &&& mem_gate_stay(mem[i], mem[i + 1]) == 0
        }
}

/// A processor row with the given cycle, address and value.
pub open spec fn processor_has_mem(proc: Seq<RegV>, cycle: nat, mp: nat, mv: nat) -> bool {
    exists|j: int|
        0 <= j < proc.len() && (#[trigger] proc[j]).cycle == cycle && proc[j].memory_pointer == mp
            && proc[j].memory_value == mv
}

/// Memory lookup, one direction: every memory row occurs in the
/// processor table.
pub open spec fn memory_in_processor(mem: Seq<MemoryMatrixRow>, proc: Seq<RegV>) -> bool {
    forall|i: int|
        0 <= i < mem.len() ==> processor_has_mem(
            proc,
            (#[trigger] mem[i]).cycle as nat,
            mem[i].memory_pointer as nat,
            mem[i].memory_value as nat,
        )
}

/// A memory row with the given cycle, address and value.
pub open spec fn memory_has(mem: Seq<MemoryMatrixRow>, cycle: nat, mp: nat, mv: nat) -> bool {
    exists|j: int|
        0 <= j < mem.len() && (#[trigger] mem[j]).cycle as nat == cycle
            && mem[j].memory_pointer as nat == mp && mem[j].memory_value as nat == mv
}

/// Memory lookup, the other direction: every processor row's memory
/// projection occurs in the memory table.
pub open spec fn processor_in_memory(proc: Seq<RegV>, mem: Seq<MemoryMatrixRow>) -> bool {
    forall|i: int|
        0 <= i < proc.len() ==> memory_has(
            mem,
            (#[trigger] proc[i]).cycle,
            proc[i].memory_pointer,
            proc[i].memory_value,
        )
}

/// Cycle-monotonicity gate of an input or output table: between
/// consecutive rows, the next cycle is this one plus one plus the gap
/// witness.
pub open spec fn io_gates_ok(rows: Seq<IOMatrixRow>) -> bool {
    forall|i: int|
        0 <= i && i + 1 < rows.len() ==> f_sub(
            f_add(f_add((#[trigger] rows[i]).cycle as nat, 1), rows[i + 1].diff as nat),
            rows[i + 1].cycle as nat,
        ) == 0
}

/// Range lookup on the gap witnesses.
pub open spec fn io_range_ok(rows: Seq<IOMatrixRow>, bits: nat) -> bool {
    forall|i: int| 0 <= i < rows.len() ==> (#[trigger] rows[i]).diff < pow2(bits)
}

/// A processor row binding an output row: same cycle, a write opcode,
/// and the emitted value in the cell column.
pub open spec fn processor_has_write(proc: Seq<RegV>, cycle: nat, value: nat) -> bool {
    exists|j: int|
        0 <= j < proc.len() && (#[trigger] proc[j]).cycle == cycle && proc[j].current_instruction
            == PUTCHAR as nat && proc[j].memory_value == value
}

/// Output lookup, one direction: every output row is bound to a write
/// row of the processor table.
pub open spec fn output_in_processor(out: Seq<IOMatrixRow>, proc: Seq<RegV>) -> bool {
    forall|i: int|
        0 <= i < out.len() ==> processor_has_write(
            proc,
            (#[trigger] out[i]).cycle as nat,
            out[i].value as nat,
        )
}

/// An input or output row with the given cycle and value.
pub open spec fn io_has(rows: Seq<IOMatrixRow>, cycle: nat, value: nat) -> bool {
    exists|j: int|
        0 <= j < rows.len() && (#[trigger] rows[j]).cycle as nat == cycle && rows[j].value as nat
            == value
}

/// Output lookup, the other direction: every write row of the processor
/// table occurs in the output table.
pub open spec fn writes_in_output(proc: Seq<RegV>, out: Seq<IOMatrixRow>) -> bool {
    forall|i: int|
        0 <= i < proc.len() && (#[trigger] proc[i]).current_instruction == PUTCHAR as nat
            ==> io_has(out, proc[i].cycle, proc[i].memory_value)
}

/// A processor row binding an input row: same cycle, and the consumed
/// value visible in the cell column.
pub open spec fn processor_has_read(proc: Seq<RegV>, cycle: nat, value: nat) -> bool {
    exists|j: int|
        0 <= j < proc.len() && (#[trigger] proc[j]).cycle == cycle && proc[j].memory_value == value
}

/// Input lookup, one direction: every input row is bound to a processor
/// row showing the consumed value at its cycle.
pub open spec fn input_in_processor(inp: Seq<IOMatrixRow>, proc: Seq<RegV>) -> bool {
    forall|i: int|
        0 <= i < inp.len() ==> processor_has_read(
            proc,
            (#[trigger] inp[i]).cycle as nat,
            inp[i].value as nat,
        )
}

/// Input lookup, the other direction: every read row of the processor
/// table is followed by a row whose cycle and cell value occur in the
/// input table.
pub open spec fn reads_in_input(proc: Seq<RegV>, inp: Seq<IOMatrixRow>) -> bool {
    forall|i: int|
        0 <= i && i + 1 < proc.len() && (#[trigger] proc[i]).current_instruction == GETCHAR as nat
            ==> io_has(inp, proc[i + 1].cycle, proc[i + 1].memory_value)
}

/// The whole constraint system over one set of tables: all gates and all
/// cross-table lookups.
pub open spec fn spec_air_ok(m: MatrixV, bits: nat) -> bool {
    &&& processor_boundary_ok(m.processor)
    &&& processor_gates_ok(m.processor, bits)
    &&& processor_range_ok(m.processor, bits)
    &&& processor_in_program(m.processor, m.program)
    &&& instruction_in_program(m.instruction, m.program)
    &&& memory_gates_ok(m.memory)
    &&& memory_in_processor(m.memory, m.processor)
    &&& processor_in_memory(m.processor, m.memory)
    &&& io_gates_ok(m.input)
    &&& io_range_ok(m.input, bits)
    &&& io_gates_ok(m.output)
    &&& io_range_ok(m.output, bits)
    &&& output_in_processor(m.output, m.processor)
    &&& writes_in_output(m.processor, m.output)
    &&& input_in_processor(m.input, m.processor)
    &&& reads_in_input(m.processor, m.input)
}


// ------------------------------------------------------------------
// Executable checking: the assignment oracle.
// ------------------------------------------------------------------

/// Evaluates all transition gates of one row pair in the field.
#[verifier::rlimit(100)]
pub fn transition_ok(cur: &Register, nxt: &Register, bits: u64) -> (r: bool)
    requires
        1 <= bits < 64,
    ensures
        r == processor_transition_ok(cur@, nxt@, bits as nat),
{
    let one = fr_from_u64(1);
    let two = fr_from_u64(2);
    let zero = fr_from_u64(0);
    let r_cy = fr_from_u64(cur.cycle);
    let s_cy = fr_from_u64(nxt.cycle);
    let r_ip = fr_from_u64(cur.instruction_pointer);
    let s_ip = fr_from_u64(nxt.instruction_pointer);
    let r_ni = fr_from_u64(cur.next_instruction);
    let r_mp = fr_from_u64(cur.memory_pointer);
    let s_mp = fr_from_u64(nxt.memory_pointer);
    let r_mv = fr_from_u64(cur.memory_value);
    let s_mv = fr_from_u64(nxt.memory_value);
    let ci_f = fr_from_u64(cur.current_instruction);
    let mvi = cur.memory_value_inverse;

    let g_clk = fr_sub(&fr_sub(&s_cy, &r_cy), &one);

    let prod = fr_mul(&r_mv, &mvi);
    let pm1 = fr_sub(&prod, &one);
    let g_a = fr_mul(&r_mv, &pm1);
    let g_b = fr_mul(&mvi, &pm1);
    let iz = fr_sub(&one, &prod);
    let niz = fr_sub(&one, &iz);

    let d0 = deselector_fr(&ci_f, 0);
    let d1 = deselector_fr(&ci_f, 1);
    let d2 = deselector_fr(&ci_f, 2);
    let d3 = deselector_fr(&ci_f, 3);
    let d4 = deselector_fr(&ci_f, 4);
    let d5 = deselector_fr(&ci_f, 5);
    let d6 = deselector_fr(&ci_f, 6);
    let d7 = deselector_fr(&ci_f, 7);

    let sum6 = fr_add(&fr_add(&fr_add(&fr_add(&fr_add(&d2, &d3), &d1), &d0), &d4), &d5);
    let dip = fr_sub(&fr_sub(&s_ip, &r_ip), &one);
    let dip2 = fr_sub(&fr_sub(&s_ip, &r_ip), &two);
    let dtgt = fr_sub(&s_ip, &r_ni);
    let e1 = fr_mul(&sum6, &dip);
    let elb = fr_mul(&d6, &fr_add(&fr_mul(&niz, &dip2), &fr_mul(&iz, &dtgt)));
    let erb = fr_mul(&d7, &fr_add(&fr_mul(&iz, &dip2), &fr_mul(&niz, &dtgt)));
    let g_ip = fr_add(&fr_add(&e1, &elb), &erb);

    let summp = fr_add(&fr_add(&fr_add(&fr_add(&fr_add(&d2, &d3), &d6), &d7), &d4), &d5);
    let dmp = fr_sub(&s_mp, &r_mp);
    let g_mp = fr_add(
        &fr_add(&fr_mul(&summp, &dmp), &fr_mul(&d0, &fr_add(&dmp, &one))),
        &fr_mul(&d1, &fr_sub(&dmp, &one)),
    );

    let maxf = fr_from_u64(cell_max_value(bits));
    let summv = fr_add(&fr_add(&d6, &d7), &d5);
    let dmv = fr_sub(&s_mv, &r_mv);
    let g_mv = fr_add(
        &fr_add(
            &fr_mul(&summv, &dmv),
            &fr_mul(&fr_mul(&d2, &fr_sub(&dmv, &one)), &fr_add(&dmv, &maxf)),
        ),
        &fr_mul(&fr_mul(&d3, &fr_add(&dmv, &one)), &fr_sub(&dmv, &maxf)),
    );

    fr_eq(&g_clk, &zero) && fr_eq(&g_a, &zero) && fr_eq(&g_b, &zero) && fr_eq(&g_ip, &zero)
        && fr_eq(&g_mp, &zero) && fr_eq(&g_mv, &zero)
}

/// Checks the boundary gate on the processor table's first row.
pub fn check_processor_boundary(proc: &Vec<Register>) -> (r: bool)
    ensures
        r == processor_boundary_ok(regs_of(proc@)),
{
    if proc.len() == 0 {
        return true;
    }
    proof {
        assert(regs_of(proc@)[0] == proc@[0]@);
    }
    let row = &proc[0];
    row.cycle == 0 && row.instruction_pointer == 0 && row.memory_pointer == 0 && row.memory_value
        == 0
}

/// Checks every transition gate of the processor table.
#[verifier::loop_isolation(false)]
pub fn check_processor_gates(proc: &Vec<Register>, bits: u64) -> (r: bool)
    requires
        1 <= bits < 64,
    ensures
        r == processor_gates_ok(regs_of(proc@), bits as nat),
{
    let n = proc.len();
    if n == 0 {
        return true;
    }
    let mut i: usize = 0;
    while i < n - 1
        invariant
            n == proc@.len(),
            i <= n,
            forall|k: int|
                0 <= k && k + 1 < n && k < i ==> processor_transition_ok(
                    #[trigger] regs_of(proc@)[k],
                    regs_of(proc@)[k + 1],
                    bits as nat,
                ),
        decreases n - i,
    {
        proof {
            assert(regs_of(proc@)[i as int] == proc@[i as int]@);
            assert(regs_of(proc@)[i + 1] == proc@[i + 1]@);
        }
        if !transition_ok(&proc[i], &proc[i + 1], bits) {
            return false;
        }
        i = i + 1;
    }
    true
}

/// Checks the byte-range lookup on every processor cell value.
#[verifier::loop_isolation(false)]
pub fn check_processor_range(proc: &Vec<Register>, bits: u64) -> (r: bool)
    requires
        1 <= bits < 64,
    ensures
        r == processor_range_ok(regs_of(proc@), bits as nat),
{
    let bound = cell_max_value(bits);
    let n = proc.len();
    let mut i: usize = 0;
    proof {
        vstd::arithmetic::power2::lemma_pow2_pos(bits as nat);
    }
    while i < n
        invariant
            n == proc@.len(),
            i <= n,
            bound as nat == cell_max(bits as nat),
            pow2(bits as nat) > 0,
            forall|k: int|
                0 <= k < i ==> (#[trigger] regs_of(proc@)[k]).memory_value < pow2(bits as nat),
        decreases n - i,
    {
        proof {
            assert(regs_of(proc@)[i as int] == proc@[i as int]@);
        }
        if proc[i].memory_value > bound {
            return false;
        }
        i = i + 1;
    }
    true
}

/// Scans the program table for a triple.
#[verifier::loop_isolation(false)]
pub fn program_contains(program: &Vec<InstructionMatrixRow>, ip: u64, ci: u64, ni: u64) -> (r:
    bool)
    ensures
        r == program_has(program@, ip as nat, ci as nat, ni as nat),
{
    let n = program.len();
    let mut j: usize = 0;
    while j < n
        invariant
            n == program@.len(),
            j <= n,
            forall|t: int|
                0 <= t < j ==> !((#[trigger] program@[t]).instruction_pointer == ip
                    && program@[t].current_instruction == ci && program@[t].next_instruction
                    == ni),
        decreases n - j,
    {
        let row = &program[j];
        if row.instruction_pointer == ip && row.current_instruction == ci && row.next_instruction
            == ni {
            return true;
        }
        j = j + 1;
    }
    false
}

/// Checks the program lookup over the processor table.
#[verifier::loop_isolation(false)]
pub fn check_processor_program(proc: &Vec<Register>, program: &Vec<InstructionMatrixRow>) -> (r:
    bool)
    ensures
        r == processor_in_program(regs_of(proc@), program@),
{
    let n = proc.len();
    let mut i: usize = 0;
    while i < n
        invariant
            n == proc@.len(),
            i <= n,
            forall|k: int|
                0 <= k < i ==> program_has(
                    program@,
                    (#[trigger] regs_of(proc@)[k]).instruction_pointer,
                    regs_of(proc@)[k].current_instruction,
                    regs_of(proc@)[k].next_instruction,
                ),
        decreases n - i,
    {
        proof {
            assert(regs_of(proc@)[i as int] == proc@[i as int]@);
        }
        let row = &proc[i];
        if !program_contains(
            program,
            row.instruction_pointer,
            row.current_instruction,
            row.next_instruction,
        ) {
            return false;
        }
        i = i + 1;
    }
    true
}

/// Checks the program lookup over the sorted instruction table.
#[verifier::loop_isolation(false)]
pub fn check_instruction_program(
    instr: &Vec<InstructionMatrixRow>,
    program: &Vec<InstructionMatrixRow>,
) -> (r: bool)
    ensures
        r == instruction_in_program(instr@, program@),
{
    let n = instr.len();
    let mut i: usize = 0;
    while i < n
        invariant
            n == instr@.len(),
            i <= n,
            forall|k: int|
                0 <= k < i ==> program_has(
                    program@,
                    (#[trigger] instr@[k]).instruction_pointer as nat,
                    instr@[k].current_instruction as nat,
                    instr@[k].next_instruction as nat,
                ),
        decreases n - i,
    {
        let row = &instr[i];
        if !program_contains(
            program,
            row.instruction_pointer,
            row.current_instruction,
            row.next_instruction,
        ) {
            return false;
        }
        i = i + 1;
    }
    true
}

/// Evaluates the three continuity gates of one memory row pair.
pub fn mem_pair_ok(a: &MemoryMatrixRow, b: &MemoryMatrixRow) -> (r: bool)
    ensures
        r == (mem_gate_delta(*a, *b) == 0 && mem_gate_fresh(*a, *b) == 0 && mem_gate_stay(*a, *b)
            == 0),
{
    let one = fr_from_u64(1);
    let zero = fr_from_u64(0);
    let amp = fr_from_u64(a.memory_pointer);
    let bmp = fr_from_u64(b.memory_pointer);
    let amv = fr_from_u64(a.memory_value);
    let bmv = fr_from_u64(b.memory_value);
    let acy = fr_from_u64(a.cycle);
    let bcy = fr_from_u64(b.cycle);
    let dmp = fr_sub(&bmp, &amp);
    let g0 = fr_mul(&fr_sub(&dmp, &one), &dmp);
    let g1 = fr_mul(&dmp, &bmv);
    let g2 = fr_mul(
        &fr_mul(&fr_sub(&dmp, &one), &fr_sub(&amv, &bmv)),
        &fr_sub(&fr_sub(&bcy, &acy), &one),
    );
    fr_eq(&g0, &zero) && fr_eq(&g1, &zero) && fr_eq(&g2, &zero)
}

/// Checks the continuity gates over the sorted memory table.
#[verifier::loop_isolation(false)]
pub fn check_memory_gates(mem: &Vec<MemoryMatrixRow>) -> (r: bool)
    ensures
        r == memory_gates_ok(mem@),
{
    let n = mem.len();
    if n == 0 {
        return true;
    }
    let mut i: usize = 0;
    while i < n - 1
        invariant
            n == mem@.len(),
            i <= n,
            forall|k: int|
                0 <= k && k + 1 < n && k < i ==> (mem_gate_delta(#[trigger] mem@[k], mem@[k + 1])
                    == 0 && mem_gate_fresh(mem@[k], mem@[k + 1]) == 0 && mem_gate_stay(
                    mem@[k],
                    mem@[k + 1],
                ) == 0),
        decreases n - i,
    {
        if !mem_pair_ok(&mem[i], &mem[i + 1]) {
            return false;
        }
        i = i + 1;
    }
    true
}

/// Scans the processor table for a cycle, address and value triple.
#[verifier::loop_isolation(false)]
pub fn processor_contains_mem(proc: &Vec<Register>, cycle: u64, mp: u64, mv: u64) -> (r: bool)
    ensures
        r == processor_has_mem(regs_of(proc@), cycle as nat, mp as nat, mv as nat),
{
    let n = proc.len();
    let mut j: usize = 0;
    while j < n
        invariant
            n == proc@.len(),
            j <= n,
            forall|t: int|
                0 <= t < j ==> !((#[trigger] regs_of(proc@)[t]).cycle == cycle as nat
                    && regs_of(proc@)[t].memory_pointer == mp as nat && regs_of(
                    proc@,
                )[t].memory_value == mv as nat),
        decreases n - j,
    {
        proof {
            assert(regs_of(proc@)[j as int] == proc@[j as int]@);
        }
        let row = &proc[j];
        if row.cycle == cycle && row.memory_pointer == mp && row.memory_value == mv {
            return true;
        }
        j = j + 1;
    }
    false
}

/// Checks the memory-to-processor direction of the memory lookup.
#[verifier::loop_isolation(false)]
pub fn check_memory_processor(mem: &Vec<MemoryMatrixRow>, proc: &Vec<Register>) -> (r: bool)
    ensures
        r == memory_in_processor(mem@, regs_of(proc@)),
{
    let n = mem.len();
    let mut i: usize = 0;
    while i < n
        invariant
            n == mem@.len(),
            i <= n,
            forall|k: int|
                0 <= k < i ==> processor_has_mem(
                    regs_of(proc@),
                    (#[trigger] mem@[k]).cycle as nat,
                    mem@[k].memory_pointer as nat,
                    mem@[k].memory_value as nat,
                ),
        decreases n - i,
    {
        let row = &mem[i];
        if !processor_contains_mem(proc, row.cycle, row.memory_pointer, row.memory_value) {
            return false;
        }
        i = i + 1;
    }
    true
}

/// Scans the memory table for a cycle, address and value triple.
#[verifier::loop_isolation(false)]
pub fn memory_contains(mem: &Vec<MemoryMatrixRow>, cycle: u64, mp: u64, mv: u64) -> (r: bool)
    ensures
        r == memory_has(mem@, cycle as nat, mp as nat, mv as nat),
{
    let n = mem.len();
    let mut j: usize = 0;
    while j < n
        invariant
            n == mem@.len(),
            j <= n,
            forall|t: int|
                0 <= t < j ==> !((#[trigger] mem@[t]).cycle == cycle && mem@[t].memory_pointer
                    == mp && mem@[t].memory_value == mv),
        decreases n - j,
    {
        let row = &mem[j];
        if row.cycle == cycle && row.memory_pointer == mp && row.memory_value == mv {
            return true;
        }
        j = j + 1;
    }
    false
}

/// Checks the processor-to-memory direction of the memory lookup.
#[verifier::loop_isolation(false)]
pub fn check_processor_memory(proc: &Vec<Register>, mem: &Vec<MemoryMatrixRow>) -> (r: bool)
    ensures
        r == processor_in_memory(regs_of(proc@), mem@),
{
    let n = proc.len();
    let mut i: usize = 0;
    while i < n
        invariant
            n == proc@.len(),
            i <= n,
            forall|k: int|
                0 <= k < i ==> memory_has(
                    mem@,
                    (#[trigger] regs_of(proc@)[k]).cycle,
                    regs_of(proc@)[k].memory_pointer,
                    regs_of(proc@)[k].memory_value,
                ),
        decreases n - i,
    {
        proof {
            assert(regs_of(proc@)[i as int] == proc@[i as int]@);
        }
        let row = &proc[i];
        if !memory_contains(mem, row.cycle, row.memory_pointer, row.memory_value) {
            return false;
        }
        i = i + 1;
    }
    true
}

/// Evaluates the cycle-monotonicity gate over an input or output table.
#[verifier::loop_isolation(false)]
pub fn check_io_gates(rows: &Vec<IOMatrixRow>) -> (r: bool)
    ensures
        r == io_gates_ok(rows@),
{
    let one = fr_from_u64(1);
    let zero = fr_from_u64(0);
    let n = rows.len();
    if n == 0 {
        return true;
    }
    let mut i: usize = 0;
    while i < n - 1
        invariant
            n == rows@.len(),
            i <= n,
            forall|k: int|
                0 <= k && k + 1 < n && k < i ==> f_sub(
                    f_add(f_add((#[trigger] rows@[k]).cycle as nat, 1), rows@[k + 1].diff as nat),
                    rows@[k + 1].cycle as nat,
                ) == 0,
        decreases n - i,
    {
        let acy = fr_from_u64(rows[i].cycle);
        let bdiff = fr_from_u64(rows[i + 1].diff);
        let bcy = fr_from_u64(rows[i + 1].cycle);
        let g = fr_sub(&fr_add(&fr_add(&acy, &one), &bdiff), &bcy);
        if !fr_eq(&g, &zero) {
            return false;
        }
        i = i + 1;
    }
    true
}

/// Checks the range lookup on an input or output table's gap witnesses.
#[verifier::loop_isolation(false)]
pub fn check_io_range(rows: &Vec<IOMatrixRow>, bits: u64) -> (r: bool)
    requires
        1 <= bits < 64,
    ensures
        r == io_range_ok(rows@, bits as nat),
{
    let bound = cell_max_value(bits);
    let n = rows.len();
    let mut i: usize = 0;
    proof {
        vstd::arithmetic::power2::lemma_pow2_pos(bits as nat);
    }
    while i < n
        invariant
            n == rows@.len(),
            i <= n,
            bound as nat == cell_max(bits as nat),
            pow2(bits as nat) > 0,
            forall|k: int| 0 <= k < i ==> (#[trigger] rows@[k]).diff < pow2(bits as nat),
        decreases n - i,
    {
        if rows[i].diff > bound {
            return false;
        }
        i = i + 1;
    }
    true
}

/// Scans the processor table for a write row binding a cycle and value.
#[verifier::loop_isolation(false)]
pub fn processor_contains_write(proc: &Vec<Register>, cycle: u64, value: u64) -> (r: bool)
    ensures
        r == processor_has_write(regs_of(proc@), cycle as nat, value as nat),
{
    let n = proc.len();
    let mut j: usize = 0;
    while j < n
        invariant
            n == proc@.len(),
            j <= n,
            forall|t: int|
                0 <= t < j ==> !((#[trigger] regs_of(proc@)[t]).cycle == cycle as nat && regs_of(
                    proc@,
                )[t].current_instruction == PUTCHAR as nat && regs_of(proc@)[t].memory_value
                    == value as nat),
        decreases n - j,
    {
        proof {
            assert(regs_of(proc@)[j as int] == proc@[j as int]@);
        }
        let row = &proc[j];
        if row.cycle == cycle && row.current_instruction == PUTCHAR as u64 && row.memory_value
            == value {
            return true;
        }
        j = j + 1;
    }
    false
}

/// Checks the output-to-processor direction of the output lookup.
#[verifier::loop_isolation(false)]
pub fn check_output_processor(out: &Vec<IOMatrixRow>, proc: &Vec<Register>) -> (r: bool)
    ensures
        r == output_in_processor(out@, regs_of(proc@)),
{
    let n = out.len();
    let mut i: usize = 0;
    while i < n
        invariant
            n == out@.len(),
            i <= n,
            forall|k: int|
                0 <= k < i ==> processor_has_write(
                    regs_of(proc@),
                    (#[trigger] out@[k]).cycle as nat,
                    out@[k].value as nat,
                ),
        decreases n - i,
    {
        if !processor_contains_write(proc, out[i].cycle, out[i].value) {
            return false;
        }
        i = i + 1;
    }
    true
}

/// Scans an input or output table for a cycle and value pair.
#[verifier::loop_isolation(false)]
pub fn io_contains(rows: &Vec<IOMatrixRow>, cycle: u64, value: u64) -> (r: bool)
    ensures
        r == io_has(rows@, cycle as nat, value as nat),
{
    let n = rows.len();
    let mut j: usize = 0;
    while j < n
        invariant
            n == rows@.len(),
            j <= n,
            forall|t: int|
                0 <= t < j ==> !((#[trigger] rows@[t]).cycle == cycle && rows@[t].value == value),
        decreases n - j,
    {
        if rows[j].cycle == cycle && rows[j].value == value {
            return true;
        }
        j = j + 1;
    }
    false
}

/// Checks that every write row of the processor table is committed in
/// the output table.
#[verifier::loop_isolation(false)]
pub fn check_writes_output(proc: &Vec<Register>, out: &Vec<IOMatrixRow>) -> (r: bool)
    ensures
        r == writes_in_output(regs_of(proc@), out@),
{
    let n = proc.len();
    let mut i: usize = 0;
    while i < n
        invariant
            n == proc@.len(),
            i <= n,
            forall|k: int|
                0 <= k < i && (#[trigger] regs_of(proc@)[k]).current_instruction == PUTCHAR as nat
                    ==> io_has(out@, regs_of(proc@)[k].cycle, regs_of(proc@)[k].memory_value),
        decreases n - i,
    {
        proof {
            assert(regs_of(proc@)[i as int] == proc@[i as int]@);
        }
        let row = &proc[i];
        if row.current_instruction == PUTCHAR as u64 {
            if !io_contains(out, row.cycle, row.memory_value) {
                return false;
            }
        }
        i = i + 1;
    }
    true
}

/// Scans the processor table for a row showing a cycle and cell value.
#[verifier::loop_isolation(false)]
pub fn processor_contains_read(proc: &Vec<Register>, cycle: u64, value: u64) -> (r: bool)
    ensures
        r == processor_has_read(regs_of(proc@), cycle as nat, value as nat),
{
    let n = proc.len();
    let mut j: usize = 0;
    while j < n
        invariant
            n == proc@.len(),
            j <= n,
            forall|t: int|
                0 <= t < j ==> !((#[trigger] regs_of(proc@)[t]).cycle == cycle as nat && regs_of(
                    proc@,
                )[t].memory_value == value as nat),
        decreases n - j,
    {
        proof {
            assert(regs_of(proc@)[j as int] == proc@[j as int]@);
        }
        let row = &proc[j];
        if row.cycle == cycle && row.memory_value == value {
            return true;
        }
        j = j + 1;
    }
    false
}

/// Checks the input-to-processor direction of the input lookup.
#[verifier::loop_isolation(false)]
pub fn check_input_processor(inp: &Vec<IOMatrixRow>, proc: &Vec<Register>) -> (r: bool)
    ensures
        r == input_in_processor(inp@, regs_of(proc@)),
{
    let n = inp.len();
    let mut i: usize = 0;
    while i < n
        invariant
            n == inp@.len(),
            i <= n,
            forall|k: int|
                0 <= k < i ==> processor_has_read(
                    regs_of(proc@),
                    (#[trigger] inp@[k]).cycle as nat,
                    inp@[k].value as nat,
                ),
        decreases n - i,
    {
        if !processor_contains_read(proc, inp[i].cycle, inp[i].value) {
            return false;
        }
        i = i + 1;
    }
    true
}

/// Checks that every read row of the processor table is bound to the
/// committed input table.
#[verifier::loop_isolation(false)]
pub fn check_reads_input(proc: &Vec<Register>, inp: &Vec<IOMatrixRow>) -> (r: bool)
    ensures
        r == reads_in_input(regs_of(proc@), inp@),
{
    let n = proc.len();
    if n == 0 {
        return true;
    }
    let mut i: usize = 0;
    while i < n - 1
        invariant
            n == proc@.len(),
            i <= n,
            forall|k: int|
                0 <= k && k + 1 < n && k < i && (#[trigger] regs_of(
                    proc@,
                )[k]).current_instruction == GETCHAR as nat ==> io_has(
                    inp@,
                    regs_of(proc@)[k + 1].cycle,
                    regs_of(proc@)[k + 1].memory_value,
                ),
        decreases n - i,
    {
        proof {
            assert(regs_of(proc@)[i as int] == proc@[i as int]@);
            assert(regs_of(proc@)[i + 1] == proc@[i + 1]@);
        }
        let row = &proc[i];
        if row.current_instruction == GETCHAR as u64 {
            if !io_contains(inp, proc[i + 1].cycle, proc[i + 1].memory_value) {
                return false;
            }
        }
        i = i + 1;
    }
    true
}

/// Checks every gate and lookup of the constraint system against one
/// concrete set of tables: the assignment-checking oracle.
pub fn check_matrix(m: &Matrix, bits: u64) -> (r: bool)
    requires
        1 <= bits < 64,
    ensures
        r == spec_air_ok(m@, bits as nat),
{
    let b0 = check_processor_boundary(&m.processor_matrix);
    let b1 = check_processor_gates(&m.processor_matrix, bits);
    let b2 = check_processor_range(&m.processor_matrix, bits);
    let b3 = check_processor_program(&m.processor_matrix, &m.program);
    let b4 = check_instruction_program(&m.instruction_matrix, &m.program);
    let b5 = check_memory_gates(&m.memory_matrix);
    let b6 = check_memory_processor(&m.memory_matrix, &m.processor_matrix);
    let b7 = check_processor_memory(&m.processor_matrix, &m.memory_matrix);
    let b8 = check_io_gates(&m.input_matrix);
    let b9 = check_io_range(&m.input_matrix, bits);
    let b10 = check_io_gates(&m.output_matrix);
    let b11 = check_io_range(&m.output_matrix, bits);
    let b12 = check_output_processor(&m.output_matrix, &m.processor_matrix);
    let b13 = check_writes_output(&m.processor_matrix, &m.output_matrix);
    let b14 = check_input_processor(&m.input_matrix, &m.processor_matrix);
    let b15 = check_reads_input(&m.processor_matrix, &m.input_matrix);
    b0 && b1 && b2 && b3 && b4 && b5 && b6 && b7 && b8 && b9 && b10 && b11 && b12 && b13 && b14
        && b15
}


/// The fixed range table: every integer in `[0, 2^bits)` exactly once,
/// in order.  A value looked up against it is thereby proven to lie in
/// the interval; it is shared by the cell-range check and both gap
/// checks.
pub fn range_table_values(bits: u64) -> (r: Vec<u64>)
    requires
        1 <= bits <= 20,
    ensures
        r@.len() == pow2(bits as nat),
        forall|i: int| 0 <= i < r@.len() ==> r@[i] == i,
{
    proof {
        vstd::arithmetic::power2::lemma_pow2_pos(bits as nat);
        vstd::bits::lemma_u64_pow2_no_overflow(bits as nat);
        vstd::bits::lemma_u64_shl_is_mul(1u64, bits);
    }
    let count = 1u64 << bits;
    let mut out: Vec<u64> = Vec::new();
    let mut v: u64 = 0;
    while v < count
        invariant
            v <= count,
            count == pow2(bits as nat),
            out@.len() == v,
            forall|i: int| 0 <= i < out@.len() ==> out@[i] == i,
        decreases count - v,
    {
        out.push(v);
        v = v + 1;
    }
    out
}

} // verus!
