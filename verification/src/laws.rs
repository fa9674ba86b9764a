use vstd::prelude::*;

use crate::air::{
    deselector, desel_partial, gate_clk, gate_ip, gate_iz_a, gate_iz_b, gate_mp, gate_mv, io_gates_ok,
    io_has, io_range_ok, instruction_in_program, iz_ind, mem_gate_delta, mem_gate_fresh,
    mem_gate_stay, memory_gates_ok, memory_has, memory_in_processor, op_val,
    processor_boundary_ok, processor_gates_ok, processor_has_mem, processor_has_read,
    processor_has_write, processor_in_memory, processor_in_program, processor_range_ok,
    processor_transition_ok,
    program_has, output_in_processor, input_in_processor, reads_in_input, spec_air_ok,
    sum_ip_simple, sum_mp_stay, sum_mv_stay, writes_in_output,
};
use crate::field::{
    f_add, f_mul, f_sub, field_order, lemma_f_add_eval, lemma_f_add_zero, lemma_f_mul_zero,
    lemma_f_sub_eval, lemma_f_sub_zero, lemma_order_large,
};
use crate::interpreter::{
    cell_max, code_at, halted_at, io_rows_wf, lemma_state_at_prefix, matrix_matches, mvi_wf,
    proc_row_at, reg_matches, run_env, state_at, step, unsorted_instr, unsorted_mem, with_diff,
    IoPair, RegV,
};
use crate::matrix::{IOMatrixRow, MatrixV};
use crate::matrix::{InstructionMatrixRow, MemoryMatrixRow};
use crate::sorting::{
    lemma_sort_instr_multiset, lemma_sort_mem_multiset, lemma_sort_mem_sorted, mem_le, mem_sorted,
    spec_sort_instr, spec_sort_mem,
};
use crate::{ADD, GETCHAR, LB, PUTCHAR, RB, SHL, SHR, SUB};
use vstd::arithmetic::power2::pow2;

verus! {

// Completeness of the constraint system: every transition the reference
// interpreter can take satisfies every processor gate.  The proofs below
// work opcode by opcode; each gate value is a combinator expression over
// canonical representatives, and each rule term is killed either by its
// vanishing deselector or by its own difference factor.

/// Every value a 64-bit column cell can hold is a canonical
/// representative.
pub open spec fn row_bounded(r: RegV) -> bool {
    &&& r.cycle < 0x1_0000_0000_0000_0000
    &&& r.instruction_pointer < 0x1_0000_0000_0000_0000
    &&& r.current_instruction < 0x1_0000_0000_0000_0000
    &&& r.next_instruction < 0x1_0000_0000_0000_0000
    &&& r.memory_pointer < 0x1_0000_0000_0000_0000
    &&& r.memory_value < 0x1_0000_0000_0000_0000
    &&& r.memory_value_inverse < field_order()
}

/// A deselector's partial product vanishes once the matching factor has
/// been taken in.
proof fn lemma_desel_partial_zero(ci: nat, k: nat, j: nat, m: nat)
    requires
        ci < field_order(),
        m < j <= 8,
        m != k,
        ci == op_val(m),
    ensures
        desel_partial(ci, k, j) == 0,
    decreases j,
{
    lemma_order_large();
    if j == m + 1 {
        lemma_f_sub_zero(ci, op_val(m));
        lemma_f_mul_zero(desel_partial(ci, k, (j - 1) as nat), f_sub(ci, op_val(m)));
    } else {
        lemma_desel_partial_zero(ci, k, (j - 1) as nat, m);
        if k != j - 1 {
            lemma_f_mul_zero(0, f_sub(ci, op_val((j - 1) as nat)));
        }
    }
}

/// On a row whose opcode is `m`, every other opcode's deselector
/// vanishes.
proof fn lemma_desels_vanish(ci: nat, m: nat)
    requires
        ci < field_order(),
        m < 8,
        ci == op_val(m),
    ensures
        forall|k: nat| k < 8 && k != m ==> #[trigger] deselector(ci, k) == 0,
{
    assert forall|k: nat| k < 8 && k != m implies #[trigger] deselector(ci, k) == 0 by {
        lemma_desel_partial_zero(ci, k, 8, m);
    }
}

/// The two is-zero relations hold of a well formed inverse witness, and
/// the indicator takes its intended boolean value.
proof fn lemma_iz_gates(r: RegV)
    requires
        row_bounded(r),
        mvi_wf(r.memory_value, r.memory_value_inverse),
    ensures
        gate_iz_a(r) == 0,
        gate_iz_b(r) == 0,
        r.memory_value == 0 ==> iz_ind(r) == 1,
        r.memory_value != 0 ==> iz_ind(r) == 0,
{
    lemma_order_large();
    let mv = r.memory_value;
    let mvi = r.memory_value_inverse;
    if mv == 0 {
        lemma_f_mul_zero(mv, mvi);
        lemma_f_mul_zero(mv, f_sub(f_mul(mv, mvi), 1));
        lemma_f_mul_zero(mvi, f_sub(f_mul(mv, mvi), 1));
        lemma_f_sub_eval(1, 0);
    } else {
        assert(f_mul(mv, mvi) == 1);
        lemma_f_sub_zero(1, 1);
        lemma_f_mul_zero(mv, f_sub(f_mul(mv, mvi), 1));
        lemma_f_mul_zero(mvi, f_sub(f_mul(mv, mvi), 1));
    }
}

/// `(a + 1) - a - 1` is the field's zero.
proof fn lemma_delta_one(a: nat)
    requires
        a + 1 < field_order(),
    ensures
        f_sub(f_sub((a + 1) as nat, a), 1) == 0,
{
    lemma_order_large();
    lemma_f_sub_eval((a + 1) as nat, a);
    lemma_f_sub_zero(1, 1);
}

/// `(a + 2) - a - 2` is the field's zero.
proof fn lemma_delta_two(a: nat)
    requires
        a + 2 < field_order(),
    ensures
        f_sub(f_sub((a + 2) as nat, a), 2) == 0,
{
    lemma_order_large();
    lemma_f_sub_eval((a + 2) as nat, a);
    lemma_f_sub_zero(2, 2);
}

/// `(a - 1) - a + 1` is the field's zero.
proof fn lemma_minus_one_plus_one(a: nat)
    requires
        1 <= a < field_order(),
    ensures
        f_add(f_sub((a - 1) as nat, a), 1) == 0,
{
    lemma_order_large();
    lemma_f_sub_eval((a - 1) as nat, a);
    // f_sub(a - 1, a) == field_order() - 1
    lemma_f_add_eval((field_order() - 1) as nat, 1);
    vstd::arithmetic::div_mod::lemma_mod_self_0(field_order() as int);
}

/// Wrapping up: `(0 - m) + m` is the field's zero.
proof fn lemma_wrap_up(m: nat)
    requires
        0 < m < field_order(),
    ensures
        f_add(f_sub(0, m), m) == 0,
{
    lemma_order_large();
    lemma_f_sub_eval(0, m);
    lemma_f_add_eval((field_order() - m) as nat, m);
}

/// Wrapping down: `(m - 0) - m` is the field's zero.
proof fn lemma_wrap_down(m: nat)
    requires
        m < field_order(),
    ensures
        f_sub(f_sub(m, 0), m) == 0,
{
    lemma_f_sub_eval(m, 0);
    lemma_f_sub_zero(m, m);
}

/// The cycle gate holds of consecutive cycle counters.
proof fn lemma_clk_zero(r: RegV, s: RegV)
    requires
        row_bounded(r),
        row_bounded(s),
        s.cycle == r.cycle + 1,
    ensures
        gate_clk(r, s) == 0,
{
    lemma_order_large();
    lemma_delta_one(r.cycle);
}

/// The instruction-pointer gate holds when both jump deselectors vanish
/// and the pointer advanced by one.
proof fn lemma_gate_ip_simple(r: RegV, s: RegV)
    requires
        deselector(r.current_instruction, 6) == 0,
        deselector(r.current_instruction, 7) == 0,
        f_sub(f_sub(s.instruction_pointer, r.instruction_pointer), 1) == 0,
    ensures
        gate_ip(r, s) == 0,
{
    let ci = r.current_instruction;
    let iz = iz_ind(r);
    lemma_f_mul_zero(sum_ip_simple(ci), 0);
    lemma_f_mul_zero(
        0,
        f_add(
            f_mul(f_sub(1, iz), f_sub(f_sub(s.instruction_pointer, r.instruction_pointer), 2)),
            f_mul(iz, f_sub(s.instruction_pointer, r.next_instruction)),
        ),
    );
    lemma_f_mul_zero(
        0,
        f_add(
            f_mul(iz, f_sub(f_sub(s.instruction_pointer, r.instruction_pointer), 2)),
            f_mul(f_sub(1, iz), f_sub(s.instruction_pointer, r.next_instruction)),
        ),
    );
    lemma_f_add_zero(0);
}

/// The memory-pointer gate holds when both shift deselectors vanish and
/// the pointer is unchanged.
proof fn lemma_gate_mp_stay(r: RegV, s: RegV)
    requires
        row_bounded(r),
        row_bounded(s),
        deselector(r.current_instruction, 0) == 0,
        deselector(r.current_instruction, 1) == 0,
        s.memory_pointer == r.memory_pointer,
    ensures
        gate_mp(r, s) == 0,
{
    lemma_order_large();
    let ci = r.current_instruction;
    lemma_f_sub_zero(s.memory_pointer, r.memory_pointer);
    lemma_f_mul_zero(sum_mp_stay(ci), 0);
    lemma_f_mul_zero(0, f_add(f_sub(s.memory_pointer, r.memory_pointer), 1));
    lemma_f_mul_zero(0, f_sub(f_sub(s.memory_pointer, r.memory_pointer), 1));
    lemma_f_add_zero(0);
}

/// The three value-keeping deselectors vanish, so their sum does.
proof fn lemma_sum_mv_stay_zero(ci: nat)
    requires
        deselector(ci, 5) == 0,
        deselector(ci, 6) == 0,
        deselector(ci, 7) == 0,
    ensures
        sum_mv_stay(ci) == 0,
{
    lemma_f_add_zero(0);
}

/// The memory-value gate holds when the increment and decrement
/// deselectors vanish and the value is unchanged.
proof fn lemma_gate_mv_stay(r: RegV, s: RegV, bits: nat)
    requires
        row_bounded(r),
        row_bounded(s),
        deselector(r.current_instruction, 2) == 0,
        deselector(r.current_instruction, 3) == 0,
        s.memory_value == r.memory_value,
    ensures
        gate_mv(r, s, bits) == 0,
{
    lemma_order_large();
    let ci = r.current_instruction;
    let m = cell_max(bits);
    let dmv = f_sub(s.memory_value, r.memory_value);
    lemma_f_sub_zero(s.memory_value, r.memory_value);
    lemma_f_mul_zero(sum_mv_stay(ci), 0);
    lemma_f_mul_zero(0, f_sub(dmv, 1));
    lemma_f_mul_zero(0, f_add(dmv, m));
    lemma_f_mul_zero(0, f_add(dmv, 1));
    lemma_f_mul_zero(0, f_sub(dmv, m));
    lemma_f_add_zero(0);
}

/// The memory-value gate holds when all five value-sensitive
/// deselectors vanish, whatever the values did.
proof fn lemma_gate_mv_vanish(r: RegV, s: RegV, bits: nat)
    requires
        deselector(r.current_instruction, 2) == 0,
        deselector(r.current_instruction, 3) == 0,
        deselector(r.current_instruction, 5) == 0,
        deselector(r.current_instruction, 6) == 0,
        deselector(r.current_instruction, 7) == 0,
    ensures
        gate_mv(r, s, bits) == 0,
{
    let ci = r.current_instruction;
    let m = cell_max(bits);
    let dmv = f_sub(s.memory_value, r.memory_value);
    lemma_sum_mv_stay_zero(ci);
    lemma_f_mul_zero(0, dmv);
    lemma_f_mul_zero(0, f_sub(dmv, 1));
    lemma_f_mul_zero(0, f_add(dmv, m));
    lemma_f_mul_zero(0, f_add(dmv, 1));
    lemma_f_mul_zero(0, f_sub(dmv, m));
    lemma_f_add_zero(0);
}

/// The six pointer-keeping deselectors vanish, so their sum does.
proof fn lemma_sum_mp_stay_zero(ci: nat)
    requires
        deselector(ci, 2) == 0,
        deselector(ci, 3) == 0,
        deselector(ci, 4) == 0,
        deselector(ci, 5) == 0,
        deselector(ci, 6) == 0,
        deselector(ci, 7) == 0,
    ensures
        sum_mp_stay(ci) == 0,
{
    lemma_f_add_zero(0);
}

/// The six plain-advance deselectors vanish, so their sum does.
proof fn lemma_sum_ip_simple_zero(ci: nat)
    requires
        deselector(ci, 0) == 0,
        deselector(ci, 1) == 0,
        deselector(ci, 2) == 0,
        deselector(ci, 3) == 0,
        deselector(ci, 4) == 0,
        deselector(ci, 5) == 0,
    ensures
        sum_ip_simple(ci) == 0,
{
    lemma_f_add_zero(0);
}

/// All transition gates hold of an increment row.
proof fn lemma_trans_add(r: RegV, s: RegV, bits: nat)
    requires
        1 <= bits < 64,
        row_bounded(r),
        row_bounded(s),
        mvi_wf(r.memory_value, r.memory_value_inverse),
        r.current_instruction == ADD as nat,
        s.cycle == r.cycle + 1,
        s.instruction_pointer == r.instruction_pointer + 1,
        s.memory_pointer == r.memory_pointer,
        (r.memory_value != cell_max(bits) && s.memory_value == r.memory_value + 1) || (
        r.memory_value == cell_max(bits) && s.memory_value == 0),
    ensures
        processor_transition_ok(r, s, bits),
{
    lemma_order_large();
    vstd::arithmetic::power2::lemma_pow2_pos(bits);
    vstd::arithmetic::power2::lemma_pow2_strictly_increases(0, bits);
    vstd::arithmetic::power2::lemma2_to64();
    vstd::bits::lemma_u64_pow2_no_overflow(bits);
    let ci = r.current_instruction;
    let m = cell_max(bits);
    lemma_desels_vanish(ci, 2);
    lemma_iz_gates(r);
    lemma_clk_zero(r, s);
    lemma_delta_one(r.instruction_pointer);
    lemma_gate_ip_simple(r, s);
    lemma_gate_mp_stay(r, s);
    // value gate: one of the two increment factors vanishes
    let dmv = f_sub(s.memory_value, r.memory_value);
    lemma_sum_mv_stay_zero(ci);
    lemma_f_mul_zero(sum_mv_stay(ci), dmv);
    if r.memory_value != m {
        lemma_delta_one(r.memory_value);
        lemma_f_mul_zero(deselector(ci, 2), f_sub(dmv, 1));
        lemma_f_mul_zero(0, f_add(dmv, m));
    } else {
        lemma_wrap_up(m);
        lemma_f_mul_zero(f_mul(deselector(ci, 2), f_sub(dmv, 1)), f_add(dmv, m));
    }
    lemma_f_mul_zero(deselector(ci, 3), f_add(dmv, 1));
    lemma_f_mul_zero(0, f_sub(dmv, m));
    lemma_f_add_zero(0);
}

/// All transition gates hold of a decrement row.
proof fn lemma_trans_sub(r: RegV, s: RegV, bits: nat)
    requires
        1 <= bits < 64,
        row_bounded(r),
        row_bounded(s),
        mvi_wf(r.memory_value, r.memory_value_inverse),
        r.current_instruction == SUB as nat,
        s.cycle == r.cycle + 1,
        s.instruction_pointer == r.instruction_pointer + 1,
        s.memory_pointer == r.memory_pointer,
        (r.memory_value != 0 && s.memory_value == r.memory_value - 1) || (r.memory_value == 0
            && s.memory_value == cell_max(bits)),
    ensures
        processor_transition_ok(r, s, bits),
{
    lemma_order_large();
    vstd::arithmetic::power2::lemma_pow2_pos(bits);
    vstd::arithmetic::power2::lemma_pow2_strictly_increases(0, bits);
    vstd::arithmetic::power2::lemma2_to64();
    vstd::bits::lemma_u64_pow2_no_overflow(bits);
    let ci = r.current_instruction;
    let m = cell_max(bits);
    lemma_desels_vanish(ci, 3);
    lemma_iz_gates(r);
    lemma_clk_zero(r, s);
    lemma_delta_one(r.instruction_pointer);
    lemma_gate_ip_simple(r, s);
    lemma_gate_mp_stay(r, s);
    let dmv = f_sub(s.memory_value, r.memory_value);
    lemma_sum_mv_stay_zero(ci);
    lemma_f_mul_zero(sum_mv_stay(ci), dmv);
    lemma_f_mul_zero(deselector(ci, 2), f_sub(dmv, 1));
    lemma_f_mul_zero(0, f_add(dmv, m));
    if r.memory_value != 0 {
        lemma_minus_one_plus_one(r.memory_value);
        lemma_f_mul_zero(deselector(ci, 3), f_add(dmv, 1));
        lemma_f_mul_zero(0, f_sub(dmv, m));
    } else {
        lemma_wrap_down(m);
        lemma_f_mul_zero(f_mul(deselector(ci, 3), f_add(dmv, 1)), f_sub(dmv, m));
    }
    lemma_f_add_zero(0);
}

/// All transition gates hold of a shift-left row.
proof fn lemma_trans_shl(r: RegV, s: RegV, bits: nat)
    requires
        1 <= bits < 64,
        row_bounded(r),
        row_bounded(s),
        mvi_wf(r.memory_value, r.memory_value_inverse),
        r.current_instruction == SHL as nat,
        s.cycle == r.cycle + 1,
        s.instruction_pointer == r.instruction_pointer + 1,
        r.memory_pointer >= 1,
        s.memory_pointer == r.memory_pointer - 1,
    ensures
        processor_transition_ok(r, s, bits),
{
    lemma_order_large();
    let ci = r.current_instruction;
    lemma_desels_vanish(ci, 0);
    lemma_iz_gates(r);
    lemma_clk_zero(r, s);
    lemma_delta_one(r.instruction_pointer);
    lemma_gate_ip_simple(r, s);
    // pointer gate: the shift-left factor vanishes
    let dmp = f_sub(s.memory_pointer, r.memory_pointer);
    lemma_sum_mp_stay_zero(ci);
    lemma_f_mul_zero(sum_mp_stay(ci), dmp);
    lemma_minus_one_plus_one(r.memory_pointer);
    lemma_f_mul_zero(deselector(ci, 0), f_add(dmp, 1));
    lemma_f_mul_zero(deselector(ci, 1), f_sub(dmp, 1));
    lemma_f_add_zero(0);
    lemma_gate_mv_vanish(r, s, bits);
}

/// All transition gates hold of a shift-right row.
proof fn lemma_trans_shr(r: RegV, s: RegV, bits: nat)
    requires
        1 <= bits < 64,
        row_bounded(r),
        row_bounded(s),
        mvi_wf(r.memory_value, r.memory_value_inverse),
        r.current_instruction == SHR as nat,
        s.cycle == r.cycle + 1,
        s.instruction_pointer == r.instruction_pointer + 1,
        s.memory_pointer == r.memory_pointer + 1,
    ensures
        processor_transition_ok(r, s, bits),
{
    lemma_order_large();
    let ci = r.current_instruction;
    lemma_desels_vanish(ci, 1);
    lemma_iz_gates(r);
    lemma_clk_zero(r, s);
    lemma_delta_one(r.instruction_pointer);
    lemma_gate_ip_simple(r, s);
    let dmp = f_sub(s.memory_pointer, r.memory_pointer);
    lemma_sum_mp_stay_zero(ci);
    lemma_f_mul_zero(sum_mp_stay(ci), dmp);
    lemma_f_mul_zero(deselector(ci, 0), f_add(dmp, 1));
    lemma_delta_one(r.memory_pointer);
    lemma_f_mul_zero(deselector(ci, 1), f_sub(dmp, 1));
    lemma_f_add_zero(0);
    lemma_gate_mv_vanish(r, s, bits);
}

/// All transition gates hold of a read row.
proof fn lemma_trans_getchar(r: RegV, s: RegV, bits: nat)
    requires
        1 <= bits < 64,
        row_bounded(r),
        row_bounded(s),
        mvi_wf(r.memory_value, r.memory_value_inverse),
        r.current_instruction == GETCHAR as nat,
        s.cycle == r.cycle + 1,
        s.instruction_pointer == r.instruction_pointer + 1,
        s.memory_pointer == r.memory_pointer,
    ensures
        processor_transition_ok(r, s, bits),
{
    lemma_order_large();
    let ci = r.current_instruction;
    lemma_desels_vanish(ci, 4);
    lemma_iz_gates(r);
    lemma_clk_zero(r, s);
    lemma_delta_one(r.instruction_pointer);
    lemma_gate_ip_simple(r, s);
    lemma_gate_mp_stay(r, s);
    lemma_gate_mv_vanish(r, s, bits);
}

/// All transition gates hold of a write row.
proof fn lemma_trans_putchar(r: RegV, s: RegV, bits: nat)
    requires
        1 <= bits < 64,
        row_bounded(r),
        row_bounded(s),
        mvi_wf(r.memory_value, r.memory_value_inverse),
        r.current_instruction == PUTCHAR as nat,
        s.cycle == r.cycle + 1,
        s.instruction_pointer == r.instruction_pointer + 1,
        s.memory_pointer == r.memory_pointer,
        s.memory_value == r.memory_value,
    ensures
        processor_transition_ok(r, s, bits),
{
    lemma_order_large();
    let ci = r.current_instruction;
    lemma_desels_vanish(ci, 5);
    lemma_iz_gates(r);
    lemma_clk_zero(r, s);
    lemma_delta_one(r.instruction_pointer);
    lemma_gate_ip_simple(r, s);
    lemma_gate_mp_stay(r, s);
    lemma_gate_mv_stay(r, s, bits);
}

/// All transition gates hold of a forward-jump row.
proof fn lemma_trans_lb(r: RegV, s: RegV, bits: nat)
    requires
        1 <= bits < 64,
        row_bounded(r),
        row_bounded(s),
        mvi_wf(r.memory_value, r.memory_value_inverse),
        r.current_instruction == LB as nat,
        s.cycle == r.cycle + 1,
        s.memory_pointer == r.memory_pointer,
        s.memory_value == r.memory_value,
        (r.memory_value == 0 && s.instruction_pointer == r.next_instruction) || (r.memory_value
            != 0 && s.instruction_pointer == r.instruction_pointer + 2),
    ensures
        processor_transition_ok(r, s, bits),
{
    lemma_order_large();
    let ci = r.current_instruction;
    lemma_desels_vanish(ci, 6);
    lemma_iz_gates(r);
    lemma_clk_zero(r, s);
    let iz = iz_ind(r);
    let dip2 = f_sub(f_sub(s.instruction_pointer, r.instruction_pointer), 2);
    let dtgt = f_sub(s.instruction_pointer, r.next_instruction);
    lemma_sum_ip_simple_zero(ci);
    lemma_f_mul_zero(sum_ip_simple(ci), f_sub(f_sub(s.instruction_pointer, r.instruction_pointer), 1));
    if r.memory_value == 0 {
        // indicator is one: the target branch is selected
        lemma_f_sub_zero(1, 1);
        lemma_f_mul_zero(f_sub(1, iz), dip2);
        lemma_f_sub_zero(s.instruction_pointer, r.next_instruction);
        lemma_f_mul_zero(iz, dtgt);
        lemma_f_add_zero(0);
        lemma_f_mul_zero(deselector(ci, 6), f_add(f_mul(f_sub(1, iz), dip2), f_mul(iz, dtgt)));
    } else {
        // indicator is zero: the skip branch is selected
        lemma_delta_two(r.instruction_pointer);
        lemma_f_mul_zero(f_sub(1, iz), dip2);
        lemma_f_mul_zero(iz, dtgt);
        lemma_f_add_zero(0);
        lemma_f_mul_zero(deselector(ci, 6), f_add(f_mul(f_sub(1, iz), dip2), f_mul(iz, dtgt)));
    }
    lemma_f_mul_zero(
        deselector(ci, 7),
        f_add(f_mul(iz, dip2), f_mul(f_sub(1, iz), dtgt)),
    );
    lemma_f_add_zero(0);
    lemma_gate_mp_stay(r, s);
    lemma_gate_mv_stay(r, s, bits);
}

/// All transition gates hold of a backward-jump row.
proof fn lemma_trans_rb(r: RegV, s: RegV, bits: nat)
    requires
        1 <= bits < 64,
        row_bounded(r),
        row_bounded(s),
        mvi_wf(r.memory_value, r.memory_value_inverse),
        r.current_instruction == RB as nat,
        s.cycle == r.cycle + 1,
        s.memory_pointer == r.memory_pointer,
        s.memory_value == r.memory_value,
        (r.memory_value != 0 && s.instruction_pointer == r.next_instruction) || (r.memory_value
            == 0 && s.instruction_pointer == r.instruction_pointer + 2),
    ensures
        processor_transition_ok(r, s, bits),
{
    lemma_order_large();
    let ci = r.current_instruction;
    lemma_desels_vanish(ci, 7);
    lemma_iz_gates(r);
    lemma_clk_zero(r, s);
    let iz = iz_ind(r);
    let dip2 = f_sub(f_sub(s.instruction_pointer, r.instruction_pointer), 2);
    let dtgt = f_sub(s.instruction_pointer, r.next_instruction);
    lemma_sum_ip_simple_zero(ci);
    lemma_f_mul_zero(sum_ip_simple(ci), f_sub(f_sub(s.instruction_pointer, r.instruction_pointer), 1));
    lemma_f_mul_zero(
        deselector(ci, 6),
        f_add(f_mul(f_sub(1, iz), dip2), f_mul(iz, dtgt)),
    );
    if r.memory_value == 0 {
        // indicator is one: the skip branch is selected
        lemma_delta_two(r.instruction_pointer);
        lemma_f_mul_zero(iz, dip2);
        lemma_f_sub_zero(1, 1);
        lemma_f_mul_zero(f_sub(1, iz), dtgt);
        lemma_f_add_zero(0);
        lemma_f_mul_zero(deselector(ci, 7), f_add(f_mul(iz, dip2), f_mul(f_sub(1, iz), dtgt)));
    } else {
        // indicator is zero: the target branch is selected
        lemma_f_mul_zero(iz, dip2);
        lemma_f_sub_zero(s.instruction_pointer, r.next_instruction);
        lemma_f_mul_zero(f_sub(1, iz), dtgt);
        lemma_f_add_zero(0);
        lemma_f_mul_zero(deselector(ci, 7), f_add(f_mul(iz, dip2), f_mul(f_sub(1, iz), dtgt)));
    }
    lemma_f_add_zero(0);
    lemma_gate_mp_stay(r, s);
    lemma_gate_mv_stay(r, s, bits);
}

/// Well-formedness of every reachable machine state.
#[verifier::rlimit(100)]
pub proof fn lemma_state_wf(code: Seq<u64>, input: Seq<u64>, bits: nat, i: nat)
    requires
        run_env(code, input, bits),
        state_at(code, input, bits, i) is Some,
    ensures
        ({
            let st = state_at(code, input, bits, i).unwrap();
            &&& st.cycle == i
            &&& st.mp < st.tape.len()
            &&& st.tape.len() <= i + 1
            &&& forall|k: int| 0 <= k < st.tape.len() ==> (#[trigger] st.tape[k]) < pow2(bits)
            &&& st.in_pos <= input.len()
            &&& st.ip < 0x1_0000_0000_0000_0000
            &&& io_rows_wf(st.input_rows, i + 1, bits)
            &&& io_rows_wf(st.output_rows, i, bits)
        }),
    decreases i,
{
    vstd::arithmetic::power2::lemma_pow2_pos(bits);
    if i > 0 {
        lemma_state_wf(code, input, bits, (i - 1) as nat);
        vstd::arithmetic::power2::lemma_pow2_strictly_increases(0, bits);
        vstd::arithmetic::power2::lemma2_to64();
        vstd::bits::lemma_u64_pow2_no_overflow(bits);
    }
}

/// Completeness of the processor transition gates: any two consecutive
/// rows of a real execution satisfy every gate.
#[verifier::rlimit(100)]
#[verifier::spinoff_prover]
pub proof fn lemma_transition_complete(
    code: Seq<u64>,
    input: Seq<u64>,
    bits: nat,
    i: nat,
    r: RegV,
    s: RegV,
)
    requires
        run_env(code, input, bits),
        state_at(code, input, bits, i + 1) is Some,
        i + 1 <= 0xffff_ffff_ffff_ffff,
        reg_matches(r, proc_row_at(code, input, bits, i)),
        reg_matches(s, proc_row_at(code, input, bits, i + 1)),
    ensures
        processor_transition_ok(r, s, bits),
{
    lemma_state_at_prefix(code, input, bits, i + 1, i);
    lemma_state_wf(code, input, bits, i);
    lemma_state_wf(code, input, bits, i + 1);
    vstd::arithmetic::power2::lemma_pow2_pos(bits);
    vstd::arithmetic::power2::lemma_pow2_strictly_increases(0, bits);
    vstd::arithmetic::power2::lemma2_to64();
    vstd::bits::lemma_u64_pow2_no_overflow(bits);
    let st = state_at(code, input, bits, i).unwrap();
    let st2 = state_at(code, input, bits, i + 1).unwrap();
    assert(st2 == step(code, input, bits, st));
    let ci = code_at(code, st.ip as int) as int;
    assert(row_bounded(r));
    assert(row_bounded(s));
    if ci == SHL as int {
        lemma_trans_shl(r, s, bits);
    } else if ci == SHR as int {
        lemma_trans_shr(r, s, bits);
    } else if ci == ADD as int {
        lemma_trans_add(r, s, bits);
    } else if ci == SUB as int {
        lemma_trans_sub(r, s, bits);
    } else if ci == GETCHAR as int {
        lemma_trans_getchar(r, s, bits);
    } else if ci == PUTCHAR as int {
        lemma_trans_putchar(r, s, bits);
    } else if ci == LB as int {
        lemma_trans_lb(r, s, bits);
    } else {
        lemma_trans_rb(r, s, bits);
    }
}

/// An output log row is a faithful record of a write event.
pub open spec fn out_row_ok(code: Seq<u64>, input: Seq<u64>, bits: nat, i: nat, row: IoPair) -> bool {
    &&& row.cycle < i
    &&& proc_row_at(code, input, bits, row.cycle).ci == PUTCHAR as nat
    &&& row.value == proc_row_at(code, input, bits, row.cycle).mv
}

/// An input log row is a faithful record of a read event.
pub open spec fn in_row_ok(code: Seq<u64>, input: Seq<u64>, bits: nat, i: nat, row: IoPair) -> bool {
    &&& 1 <= row.cycle <= i
    &&& proc_row_at(code, input, bits, (row.cycle - 1) as nat).ci == GETCHAR as nat
    &&& row.value == proc_row_at(code, input, bits, row.cycle).mv
}

/// What the input and output logs hold after `i` cycles: exactly the
/// read and write events of the first `i` cycles, values as the
/// processor table shows them.
#[verifier::rlimit(100)]
pub proof fn lemma_io_trace(code: Seq<u64>, input: Seq<u64>, bits: nat, i: nat)
    requires
        run_env(code, input, bits),
        state_at(code, input, bits, i) is Some,
    ensures
        ({
            let st = state_at(code, input, bits, i).unwrap();
            &&& forall|k: int|
                0 <= k < st.output_rows.len() ==> out_row_ok(
                    code,
                    input,
                    bits,
                    i,
                    #[trigger] st.output_rows[k],
                )
            &&& forall|c: nat|
                c < i && #[trigger] proc_row_at(code, input, bits, c).ci == PUTCHAR as nat
                    ==> st.output_rows.contains(
                    IoPair { cycle: c, value: proc_row_at(code, input, bits, c).mv },
                )
            &&& forall|k: int|
                0 <= k < st.input_rows.len() ==> in_row_ok(
                    code,
                    input,
                    bits,
                    i,
                    #[trigger] st.input_rows[k],
                )
            &&& forall|c: nat|
                c < i && #[trigger] proc_row_at(code, input, bits, c).ci == GETCHAR as nat
                    ==> st.input_rows.contains(
                    IoPair { cycle: c + 1, value: proc_row_at(code, input, bits, c + 1).mv },
                )
        }),
    decreases i,
{
    if i > 0 {
        lemma_io_trace(code, input, bits, (i - 1) as nat);
        lemma_state_wf(code, input, bits, (i - 1) as nat);
        lemma_state_wf(code, input, bits, i);
        let pre = state_at(code, input, bits, (i - 1) as nat).unwrap();
        let st = state_at(code, input, bits, i).unwrap();
        let ci = code_at(code, pre.ip as int) as int;
        assert(st == step(code, input, bits, pre));
        if ci == PUTCHAR as int {
            assert(st.output_rows == pre.output_rows.push(
                IoPair { cycle: pre.cycle, value: pre.tape[pre.mp as int] },
            ));
            assert(proc_row_at(code, input, bits, (i - 1) as nat).mv == pre.tape[pre.mp as int]);
            assert forall|c: nat|
                c < i && #[trigger] proc_row_at(code, input, bits, c).ci == PUTCHAR as nat
                    implies st.output_rows.contains(
                IoPair { cycle: c, value: proc_row_at(code, input, bits, c).mv },
            ) by {
                if c < i - 1 {
                    let row = IoPair { cycle: c, value: proc_row_at(code, input, bits, c).mv };
                    let k = choose|k: int|
                        0 <= k < pre.output_rows.len() && pre.output_rows[k] == row;
                    assert(st.output_rows[k] == row);
                } else {
                    assert(st.output_rows[st.output_rows.len() - 1] == IoPair {
                        cycle: c,
                        value: proc_row_at(code, input, bits, c).mv,
                    });
                }
            }
        } else if ci == GETCHAR as int {
            assert(st.input_rows == pre.input_rows.push(
                IoPair { cycle: pre.cycle + 1, value: input[pre.in_pos as int] as nat },
            ));
            assert(proc_row_at(code, input, bits, i).mv == st.tape[st.mp as int]);
            assert(st.tape[st.mp as int] == input[pre.in_pos as int] as nat);
            assert forall|c: nat|
                c < i && #[trigger] proc_row_at(code, input, bits, c).ci == GETCHAR as nat
                    implies st.input_rows.contains(
                IoPair { cycle: c + 1, value: proc_row_at(code, input, bits, c + 1).mv },
            ) by {
                if c < i - 1 {
                    let row = IoPair {
                        cycle: c + 1,
                        value: proc_row_at(code, input, bits, c + 1).mv,
                    };
                    let k = choose|k: int|
                        0 <= k < pre.input_rows.len() && pre.input_rows[k] == row;
                    assert(st.input_rows[k] == row);
                } else {
                    assert(st.input_rows[st.input_rows.len() - 1] == IoPair {
                        cycle: c + 1,
                        value: proc_row_at(code, input, bits, c + 1).mv,
                    });
                }
            }
        } else {
            assert forall|c: nat|
                c < i && #[trigger] proc_row_at(code, input, bits, c).ci == PUTCHAR as nat
                    implies st.output_rows.contains(
                IoPair { cycle: c, value: proc_row_at(code, input, bits, c).mv },
            ) by {
                assert(c < i - 1 || c == i - 1);
                if c == i - 1 {
                    assert(proc_row_at(code, input, bits, c).ci == code_at(code, pre.ip as int));
                    assert(false);
                } else {
                    let row = IoPair { cycle: c, value: proc_row_at(code, input, bits, c).mv };
                    let k = choose|k: int|
                        0 <= k < pre.output_rows.len() && pre.output_rows[k] == row;
                    assert(st.output_rows[k] == row);
                }
            }
            assert forall|c: nat|
                c < i && #[trigger] proc_row_at(code, input, bits, c).ci == GETCHAR as nat
                    implies st.input_rows.contains(
                IoPair { cycle: c + 1, value: proc_row_at(code, input, bits, c + 1).mv },
            ) by {
                if c == i - 1 {
                    assert(proc_row_at(code, input, bits, c).ci == code_at(code, pre.ip as int));
                    assert(false);
                } else {
                    let row = IoPair {
                        cycle: c + 1,
                        value: proc_row_at(code, input, bits, c + 1).mv,
                    };
                    let k = choose|k: int|
                        0 <= k < pre.input_rows.len() && pre.input_rows[k] == row;
                    assert(st.input_rows[k] == row);
                }
            }
        }
    }
}

/// The input/output monotonicity gate, on one pair of values.
proof fn lemma_io_gate_zero(a: nat, d: nat, b: nat)
    requires
        b == a + 1 + d,
        b < 0x1_0000_0000_0000_0000,
    ensures
        f_sub(f_add(f_add(a, 1), d), b) == 0,
{
    lemma_order_large();
    lemma_f_add_eval(a, 1);
    lemma_f_add_eval((a + 1) as nat, d);
    lemma_f_sub_zero(b, b);
}

/// One step changes the tape at most at the current address, and only
/// grows it; if the pointer moved, nothing at the old address changed.
proof fn lemma_tape_step(code: Seq<u64>, input: Seq<u64>, bits: nat, k: nat)
    requires
        run_env(code, input, bits),
        state_at(code, input, bits, k + 1) is Some,
    ensures
        ({
            let st = state_at(code, input, bits, k).unwrap();
            let st2 = state_at(code, input, bits, k + 1).unwrap();
            &&& st2.tape.len() >= st.tape.len()
            &&& st2.tape.len() <= st.tape.len() + 1
            &&& forall|x: int|
                0 <= x < st.tape.len() && x != st.mp as int ==> st2.tape[x] == #[trigger] st.tape[x]
            &&& (st2.mp != st.mp ==> st2.tape[st.mp as int] == st.tape[st.mp as int])
            &&& st2.mp <= st.mp + 1
            &&& st.mp <= st2.mp + 1
        }),
{
    lemma_state_at_prefix(code, input, bits, k + 1, k);
    lemma_state_wf(code, input, bits, k);
}

/// A never-visited address holds zero.
proof fn lemma_tape_fresh(code: Seq<u64>, input: Seq<u64>, bits: nat, i: nat, a: int)
    requires
        run_env(code, input, bits),
        state_at(code, input, bits, i) is Some,
        0 <= a < state_at(code, input, bits, i).unwrap().tape.len(),
        forall|k: nat| k < i ==> #[trigger] proc_row_at(code, input, bits, k).mp != a,
    ensures
        state_at(code, input, bits, i).unwrap().tape[a] == 0,
    decreases i,
{
    if i > 0 {
        lemma_state_at_prefix(code, input, bits, i, (i - 1) as nat);
        lemma_state_wf(code, input, bits, (i - 1) as nat);
        lemma_tape_step(code, input, bits, (i - 1) as nat);
        let pre = state_at(code, input, bits, (i - 1) as nat).unwrap();
        let st = state_at(code, input, bits, i).unwrap();
        assert(proc_row_at(code, input, bits, (i - 1) as nat).mp == pre.mp);
        if a < pre.tape.len() {
            lemma_tape_fresh(code, input, bits, (i - 1) as nat, a);
            assert(pre.mp as int != a);
            assert(st.tape[a] == pre.tape[a]);
        } else {
            // a fresh cell, just appended by a shift right
            assert(st == step(code, input, bits, pre));
            assert(a == pre.tape.len());
            assert(st.tape[a] == 0);
        }
    }
}

/// An address untouched over an interval keeps its value.
proof fn lemma_tape_preserve(code: Seq<u64>, input: Seq<u64>, bits: nat, i: nat, j: nat, a: int)
    requires
        run_env(code, input, bits),
        i <= j,
        state_at(code, input, bits, j) is Some,
        0 <= a < state_at(code, input, bits, i).unwrap().tape.len(),
        forall|k: nat| i <= k < j ==> #[trigger] proc_row_at(code, input, bits, k).mp != a,
    ensures
        a < state_at(code, input, bits, j).unwrap().tape.len(),
        state_at(code, input, bits, j).unwrap().tape[a] == state_at(
            code,
            input,
            bits,
            i,
        ).unwrap().tape[a],
    decreases j - i,
{
    lemma_state_at_prefix(code, input, bits, j, i);
    if j > i {
        lemma_tape_preserve(code, input, bits, i, (j - 1) as nat, a);
        lemma_tape_step(code, input, bits, (j - 1) as nat);
        let pre = state_at(code, input, bits, (j - 1) as nat).unwrap();
        assert(proc_row_at(code, input, bits, (j - 1) as nat).mp == pre.mp);
        assert(pre.mp as int != a);
    }
}

/// The addresses reached so far are dense: everything below the current
/// pointer has been visited.
proof fn lemma_density(code: Seq<u64>, input: Seq<u64>, bits: nat, i: nat, v: nat)
    requires
        run_env(code, input, bits),
        state_at(code, input, bits, i) is Some,
        v <= proc_row_at(code, input, bits, i).mp,
    ensures
        exists|k: nat| k <= i && #[trigger] proc_row_at(code, input, bits, k).mp == v,
    decreases i,
{
    if v == proc_row_at(code, input, bits, i).mp {
        assert(proc_row_at(code, input, bits, i).mp == v);
    } else {
        lemma_state_at_prefix(code, input, bits, i, (i - 1) as nat);
        lemma_tape_step(code, input, bits, (i - 1) as nat);
        let pre = state_at(code, input, bits, (i - 1) as nat).unwrap();
        assert(proc_row_at(code, input, bits, (i - 1) as nat).mp == pre.mp);
        assert(v <= pre.mp);
        lemma_density(code, input, bits, (i - 1) as nat, v);
        let k = choose|k: nat|
            k <= i - 1 && #[trigger] proc_row_at(code, input, bits, k).mp == v;
        assert(k <= i && proc_row_at(code, input, bits, k).mp == v);
    }
}

/// Reading one row of the unsorted memory table.
proof fn lemma_unsorted_mem_row(code: Seq<u64>, input: Seq<u64>, bits: nat, n: nat, j: int)
    requires
        run_env(code, input, bits),
        state_at(code, input, bits, n) is Some,
        n <= 0xffff_ffff_ffff_ffff,
        0 <= j <= n,
    ensures
        unsorted_mem(code, input, bits, n).len() == n + 1,
        unsorted_mem(code, input, bits, n)[j].cycle as nat == j,
        unsorted_mem(code, input, bits, n)[j].memory_pointer as nat == proc_row_at(
            code,
            input,
            bits,
            j as nat,
        ).mp,
        unsorted_mem(code, input, bits, n)[j].memory_value as nat == proc_row_at(
            code,
            input,
            bits,
            j as nat,
        ).mv,
        state_at(code, input, bits, j as nat) is Some,
        unsorted_mem(code, input, bits, n)[j].interweave_indicator == 0,
{
    lemma_state_at_prefix(code, input, bits, n, j as nat);
    lemma_state_wf(code, input, bits, j as nat);
    vstd::arithmetic::power2::lemma_pow2_pos(bits);
    vstd::bits::lemma_u64_pow2_no_overflow(bits);
}

/// Strict order on memory rows: by address, ties by cycle.
pub open spec fn mem_lt(x: MemoryMatrixRow, y: MemoryMatrixRow) -> bool {
    x.memory_pointer < y.memory_pointer || (x.memory_pointer == y.memory_pointer && x.cycle
        < y.cycle)
}

/// No trace row sorts strictly between two adjacent rows of the sorted
/// memory table.
proof fn lemma_no_row_between(code: Seq<u64>, input: Seq<u64>, bits: nat, n: nat, t: int, k: nat)
    requires
        run_env(code, input, bits),
        state_at(code, input, bits, n) is Some,
        n <= 0xffff_ffff_ffff_ffff,
        k <= n,
        0 <= t,
        t + 1 < spec_sort_mem(unsorted_mem(code, input, bits, n)).len(),
    ensures
        !(mem_lt(
            spec_sort_mem(unsorted_mem(code, input, bits, n))[t],
            unsorted_mem(code, input, bits, n)[k as int],
        ) && mem_lt(
            unsorted_mem(code, input, bits, n)[k as int],
            spec_sort_mem(unsorted_mem(code, input, bits, n))[t + 1],
        )),
{
    broadcast use vstd::seq_lib::group_to_multiset_ensures;

    let uns = unsorted_mem(code, input, bits, n);
    let mem = spec_sort_mem(uns);
    lemma_sort_mem_multiset(uns);
    lemma_sort_mem_sorted(uns);
    let x = uns[k as int];
    if mem_lt(mem[t], x) && mem_lt(x, mem[t + 1]) {
        assert(uns.contains(x));
        assert(mem.to_multiset().count(x) == uns.to_multiset().count(x));
        assert(mem.contains(x));
        let u = choose|u: int| 0 <= u < mem.len() && mem[u] == x;
        if u <= t {
            assert(mem_le(mem[u], mem[t]));
        } else {
            assert(mem_le(mem[t + 1], mem[u]));
        }
    }
}

/// One adjacent pair of the sorted memory table satisfies the three
/// continuity gates.
#[verifier::rlimit(100)]
#[verifier::spinoff_prover]
proof fn lemma_mem_pair(code: Seq<u64>, input: Seq<u64>, bits: nat, n: nat, t: int)
    requires
        run_env(code, input, bits),
        state_at(code, input, bits, n) is Some,
        n <= 0xffff_ffff_ffff_ffff,
        0 <= t,
        t + 1 < spec_sort_mem(unsorted_mem(code, input, bits, n)).len(),
    ensures
        ({
            let mem = spec_sort_mem(unsorted_mem(code, input, bits, n));
            &&& mem_gate_delta(mem[t], mem[t + 1]) == 0
            &&& mem_gate_fresh(mem[t], mem[t + 1]) == 0
            &&& mem_gate_stay(mem[t], mem[t + 1]) == 0
        }),
{
    broadcast use vstd::seq_lib::group_to_multiset_ensures;

    lemma_order_large();
    let uns = unsorted_mem(code, input, bits, n);
    let mem = spec_sort_mem(uns);
    lemma_sort_mem_multiset(uns);
    lemma_sort_mem_sorted(uns);
    let a = mem[t];
    let b = mem[t + 1];
    assert(mem.contains(a)) by {
        assert(mem[t] == a);
    }
    assert(uns.to_multiset().count(a) == mem.to_multiset().count(a));
    assert(uns.contains(a));
    assert(mem.contains(b)) by {
        assert(mem[t + 1] == b);
    }
    assert(uns.to_multiset().count(b) == mem.to_multiset().count(b));
    assert(uns.contains(b));
    let ia = choose|j: int| 0 <= j < uns.len() && uns[j] == a;
    let ib = choose|j: int| 0 <= j < uns.len() && uns[j] == b;
    lemma_unsorted_mem_row(code, input, bits, n, ia);
    lemma_unsorted_mem_row(code, input, bits, n, ib);
    lemma_state_wf(code, input, bits, ia as nat);
    lemma_state_wf(code, input, bits, ib as nat);
    let amp = a.memory_pointer as nat;
    let bmp = b.memory_pointer as nat;
    let amv = a.memory_value as nat;
    let bmv = b.memory_value as nat;
    let acy = a.cycle as nat;
    let bcy = b.cycle as nat;
    assert(acy == ia && bcy == ib);
    assert(mem_le(a, b));

    // The address delta is zero or one: a skipped address would have
    // been visited on the way to `b`'s address, and its row would sort
    // strictly between the pair.
    if bmp > amp + 1 {
        lemma_density(code, input, bits, ib as nat, (amp + 1) as nat);
        let k = choose|k: nat|
            k <= ib as nat && #[trigger] proc_row_at(code, input, bits, k).mp == (amp + 1) as nat;
        lemma_unsorted_mem_row(code, input, bits, n, k as int);
        assert(mem_lt(a, uns[k as int]));
        assert(mem_lt(uns[k as int], b));
        lemma_no_row_between(code, input, bits, n, t, k);
    }

    if bmp == amp {
        // same address: the delta gates vanish on their delta factor
        lemma_f_sub_zero(bmp, amp);
        lemma_f_mul_zero(f_sub(f_sub(bmp, amp), 1), f_sub(bmp, amp));
        lemma_f_mul_zero(f_sub(bmp, amp), bmv);
        if ia == ib {
            assert(a == b);
            lemma_f_sub_zero(amv, bmv);
            lemma_f_mul_zero(f_sub(f_sub(bmp, amp), 1), f_sub(amv, bmv));
            lemma_f_mul_zero(0, f_sub(f_sub(bcy, acy), 1));
        } else {
            assert(ia < ib);
            if ib == ia + 1 {
                lemma_delta_one(acy);
                lemma_f_mul_zero(
                    f_mul(f_sub(f_sub(bmp, amp), 1), f_sub(amv, bmv)),
                    f_sub(f_sub(bcy, acy), 1),
                );
            } else {
                // the address is not visited strictly between the two
                // rows, so its value is carried across the gap
                assert forall|k: nat| ia < k < ib implies #[trigger] proc_row_at(
                    code,
                    input,
                    bits,
                    k,
                ).mp != amp by {
                    if proc_row_at(code, input, bits, k).mp == amp {
                        lemma_unsorted_mem_row(code, input, bits, n, k as int);
                        assert(mem_lt(a, uns[k as int]));
                        assert(mem_lt(uns[k as int], b));
                        lemma_no_row_between(code, input, bits, n, t, k);
                    }
                }
                lemma_state_at_prefix(code, input, bits, ib as nat, (ia + 1) as nat);
                lemma_tape_step(code, input, bits, ia as nat);
                let sa = state_at(code, input, bits, ia as nat).unwrap();
                let sa1 = state_at(code, input, bits, (ia + 1) as nat).unwrap();
                let sb = state_at(code, input, bits, ib as nat).unwrap();
                assert(proc_row_at(code, input, bits, (ia + 1) as nat).mp == sa1.mp);
                assert(sa1.mp != amp);
                assert(sa.mp == amp);
                assert(sa1.tape[amp as int] == sa.tape[amp as int]);
                lemma_tape_preserve(code, input, bits, (ia + 1) as nat, ib as nat, amp as int);
                assert(sb.tape[amp as int] == sa.tape[amp as int]);
                assert(amv == bmv);
                lemma_f_sub_zero(amv, bmv);
                lemma_f_mul_zero(f_sub(f_sub(bmp, amp), 1), f_sub(amv, bmv));
                lemma_f_mul_zero(0, f_sub(f_sub(bcy, acy), 1));
            }
        }
    } else {
        // delta one: the delta factor of the first and third gates
        // vanishes, and the fresh address starts at zero
        assert(bmp == amp + 1);
        lemma_f_sub_eval(bmp, amp);
        assert(f_sub(bmp, amp) == 1);
        lemma_f_sub_zero(1, 1);
        lemma_f_mul_zero(f_sub(f_sub(bmp, amp), 1), f_sub(bmp, amp));
        lemma_f_mul_zero(f_sub(f_sub(bmp, amp), 1), f_sub(amv, bmv));
        lemma_f_mul_zero(0, f_sub(f_sub(bcy, acy), 1));
        assert forall|k: nat| k < ib as nat implies #[trigger] proc_row_at(
            code,
            input,
            bits,
            k,
        ).mp != bmp by {
            if proc_row_at(code, input, bits, k).mp == bmp {
                lemma_unsorted_mem_row(code, input, bits, n, k as int);
                assert(mem_lt(a, uns[k as int]));
                assert(mem_lt(uns[k as int], b));
                lemma_no_row_between(code, input, bits, n, t, k);
            }
        }
        let sb = state_at(code, input, bits, ib as nat).unwrap();
        assert(sb.mp == bmp);
        lemma_tape_fresh(code, input, bits, ib as nat, bmp as int);
        assert(bmv == 0);
        lemma_f_mul_zero(f_sub(bmp, amp), bmv);
    }
}

/// Completeness of the memory table's continuity gates for real traces.
pub proof fn lemma_memory_gates_complete(code: Seq<u64>, input: Seq<u64>, bits: nat, n: nat)
    requires
        run_env(code, input, bits),
        state_at(code, input, bits, n) is Some,
        n <= 0xffff_ffff_ffff_ffff,
    ensures
        memory_gates_ok(spec_sort_mem(unsorted_mem(code, input, bits, n))),
{
    let mem = spec_sort_mem(unsorted_mem(code, input, bits, n));
    assert forall|t: int| 0 <= t && t + 1 < mem.len() implies {
        &&& mem_gate_delta(#[trigger] mem[t], mem[t + 1]) == 0
        &&& mem_gate_fresh(mem[t], mem[t + 1]) == 0
        &&& mem_gate_stay(mem[t], mem[t + 1]) == 0
    } by {
        lemma_mem_pair(code, input, bits, n, t);
    }
}

/// Boundary and transition constraints of the processor table hold of
/// any completed run's tables.
#[verifier::rlimit(100)]
proof fn lemma_processor_gates_complete(
    m: MatrixV,
    code: Seq<u64>,
    input: Seq<u64>,
    bits: nat,
    n: nat,
)
    requires
        run_env(code, input, bits),
        halted_at(code, input, bits, n),
        n <= 0xffff_ffff_ffff_ffff,
        matrix_matches(m, code, input, bits, n),
    ensures
        processor_boundary_ok(m.processor),
        processor_gates_ok(m.processor, bits),
{
    lemma_state_wf(code, input, bits, 0);
    assert(reg_matches(m.processor[0], proc_row_at(code, input, bits, 0)));
    assert(processor_boundary_ok(m.processor));
    assert forall|i: int|
        0 <= i && i + 1 < m.processor.len() implies processor_transition_ok(
        #[trigger] m.processor[i],
        m.processor[i + 1],
        bits,
    ) by {
        lemma_state_at_prefix(code, input, bits, n, (i + 1) as nat);
        lemma_transition_complete(
            code,
            input,
            bits,
            i as nat,
            m.processor[i],
            m.processor[i + 1],
        );
    }
}

/// The range lookup of the processor table holds of any completed run's
/// tables.
proof fn lemma_processor_range_complete(
    m: MatrixV,
    code: Seq<u64>,
    input: Seq<u64>,
    bits: nat,
    n: nat,
)
    requires
        run_env(code, input, bits),
        halted_at(code, input, bits, n),
        n <= 0xffff_ffff_ffff_ffff,
        matrix_matches(m, code, input, bits, n),
    ensures
        processor_range_ok(m.processor, bits),
{
    assert forall|i: int|
        0 <= i < m.processor.len() implies (#[trigger] m.processor[i]).memory_value < pow2(
        bits,
    ) by {
        lemma_state_at_prefix(code, input, bits, n, i as nat);
        lemma_state_wf(code, input, bits, i as nat);
        assert(reg_matches(m.processor[i], proc_row_at(code, input, bits, i as nat)));
    }
}

/// The program lookup of the processor table holds of any completed
/// run's tables whose halted pointer stays within the program table.
#[verifier::rlimit(100)]
proof fn lemma_processor_program_complete(
    m: MatrixV,
    code: Seq<u64>,
    input: Seq<u64>,
    bits: nat,
    n: nat,
)
    requires
        run_env(code, input, bits),
        halted_at(code, input, bits, n),
        n <= 0xffff_ffff_ffff_ffff,
        state_at(code, input, bits, n).unwrap().ip <= code.len(),
        matrix_matches(m, code, input, bits, n),
    ensures
        processor_in_program(m.processor, m.program),
{
    assert forall|i: int|
        0 <= i < m.processor.len() implies program_has(
        m.program,
        (#[trigger] m.processor[i]).instruction_pointer,
        m.processor[i].current_instruction,
        m.processor[i].next_instruction,
    ) by {
        lemma_state_at_prefix(code, input, bits, n, i as nat);
        lemma_state_wf(code, input, bits, i as nat);
        assert(reg_matches(m.processor[i], proc_row_at(code, input, bits, i as nat)));
        let st = state_at(code, input, bits, i as nat).unwrap();
        if i < n {
            lemma_state_at_prefix(code, input, bits, n, (i + 1) as nat);
            assert(state_at(code, input, bits, (i + 1) as nat) is Some);
            assert(st.ip < code.len());
        } else {
            assert(st.ip >= code.len());
            assert(st.ip <= code.len());
        }
        let ip = st.ip as int;
        assert(m.program[ip].instruction_pointer as nat == st.ip);
        assert(m.program[ip].current_instruction as nat == code_at(code, ip));
        assert(m.program[ip].next_instruction as nat == code_at(code, ip + 1));
    }
}

/// Round trip: after compiling and executing, every triple of the
/// re-sorted instruction table occurs in the program table.
#[verifier::rlimit(100)]
pub proof fn lemma_instruction_table_in_program(
    m: MatrixV,
    code: Seq<u64>,
    input: Seq<u64>,
    bits: nat,
    n: nat,
)
    requires
        run_env(code, input, bits),
        halted_at(code, input, bits, n),
        n <= 0xffff_ffff_ffff_ffff,
        state_at(code, input, bits, n).unwrap().ip <= code.len(),
        matrix_matches(m, code, input, bits, n),
    ensures
        instruction_in_program(m.instruction, m.program),
{
    broadcast use vstd::seq_lib::group_to_multiset_ensures;

    let uns = unsorted_instr(code, input, bits, n);
    lemma_sort_instr_multiset(uns);
    assert forall|i: int|
        0 <= i < m.instruction.len() implies program_has(
        m.program,
        (#[trigger] m.instruction[i]).instruction_pointer as nat,
        m.instruction[i].current_instruction as nat,
        m.instruction[i].next_instruction as nat,
    ) by {
        let row = m.instruction[i];
        assert(m.instruction.contains(row));
        assert(uns.to_multiset().count(row) == m.instruction.to_multiset().count(row));
        assert(uns.contains(row));
        let j = choose|j: int| 0 <= j < uns.len() && uns[j] == row;
        if j < code.len() {
            assert(m.program[j].instruction_pointer == row.instruction_pointer);
            assert(m.program[j].current_instruction == row.current_instruction);
            assert(m.program[j].next_instruction == row.next_instruction);
        } else {
            let k = (j - code.len()) as nat;
            lemma_state_at_prefix(code, input, bits, n, k);
            lemma_state_wf(code, input, bits, k);
            let st = state_at(code, input, bits, k).unwrap();
            if k < n {
                lemma_state_at_prefix(code, input, bits, n, (k + 1) as nat);
                assert(st.ip < code.len());
            } else {
                assert(st.ip <= code.len());
            }
            let ip = st.ip as int;
            assert(m.program[ip].instruction_pointer as nat == st.ip);
            assert(m.program[ip].current_instruction as nat == code_at(code, ip));
            assert(m.program[ip].next_instruction as nat == code_at(code, ip + 1));
        }
    }
}

/// Both directions of the memory lookup hold: the sorted memory table
/// and the processor table are two views of the same event log.
#[verifier::rlimit(100)]
proof fn lemma_memory_lookup_complete(
    m: MatrixV,
    code: Seq<u64>,
    input: Seq<u64>,
    bits: nat,
    n: nat,
)
    requires
        run_env(code, input, bits),
        halted_at(code, input, bits, n),
        n <= 0xffff_ffff_ffff_ffff,
        matrix_matches(m, code, input, bits, n),
    ensures
        memory_in_processor(m.memory, m.processor),
        processor_in_memory(m.processor, m.memory),
{
    broadcast use vstd::seq_lib::group_to_multiset_ensures;

    let uns = unsorted_mem(code, input, bits, n);
    lemma_sort_mem_multiset(uns);
    assert forall|i: int|
        0 <= i < m.memory.len() implies processor_has_mem(
        m.processor,
        (#[trigger] m.memory[i]).cycle as nat,
        m.memory[i].memory_pointer as nat,
        m.memory[i].memory_value as nat,
    ) by {
        let row = m.memory[i];
        assert(m.memory.contains(row));
        assert(uns.to_multiset().count(row) == m.memory.to_multiset().count(row));
        assert(uns.contains(row));
        let j = choose|j: int| 0 <= j < uns.len() && uns[j] == row;
        lemma_unsorted_mem_row(code, input, bits, n, j);
        assert(reg_matches(m.processor[j], proc_row_at(code, input, bits, j as nat)));
        lemma_state_wf(code, input, bits, j as nat);
        assert(m.processor[j].cycle == row.cycle as nat);
    }
    assert forall|i: int|
        0 <= i < m.processor.len() implies memory_has(
        m.memory,
        (#[trigger] m.processor[i]).cycle,
        m.processor[i].memory_pointer,
        m.processor[i].memory_value,
    ) by {
        lemma_unsorted_mem_row(code, input, bits, n, i);
        lemma_state_wf(code, input, bits, i as nat);
        assert(reg_matches(m.processor[i], proc_row_at(code, input, bits, i as nat)));
        let row = uns[i];
        assert(uns.contains(row));
        assert(m.memory.to_multiset().count(row) == uns.to_multiset().count(row));
        assert(m.memory.contains(row));
        let u = choose|u: int| 0 <= u < m.memory.len() && m.memory[u] == row;
        assert(m.memory[u].cycle as nat == m.processor[i].cycle);
    }
}

/// The cycle-monotonicity gate holds of a generated input or output
/// table with its gap witnesses.
proof fn lemma_io_gates_complete(rows: Seq<IoPair>, table: Seq<IOMatrixRow>, bound: nat, bits: nat)
    requires
        table == with_diff(rows),
        io_rows_wf(rows, bound, bits),
        bound <= 0x1_0000_0000_0000_0000,
    ensures
        io_gates_ok(table),
{
    lemma_order_large();
    assert forall|i: int|
        0 <= i && i + 1 < table.len() implies f_sub(
        f_add(f_add((#[trigger] table[i]).cycle as nat, 1), table[i + 1].diff as nat),
        table[i + 1].cycle as nat,
    ) == 0 by {
        let a = rows[i].cycle;
        let b = rows[i + 1].cycle;
        assert(a < b);
        lemma_io_gate_zero(a, (b - a - 1) as nat, b);
    }
}

/// Every output row is bound to a write row of the processor table.
#[verifier::rlimit(100)]
proof fn lemma_output_in_processor(m: MatrixV, code: Seq<u64>, input: Seq<u64>, bits: nat, n: nat)
    requires
        run_env(code, input, bits),
        halted_at(code, input, bits, n),
        n <= 0xffff_ffff_ffff_ffff,
        matrix_matches(m, code, input, bits, n),
    ensures
        output_in_processor(m.output, m.processor),
{
    lemma_io_trace(code, input, bits, n);
    lemma_state_wf(code, input, bits, n);
    let fin = state_at(code, input, bits, n).unwrap();
    assert forall|i: int|
        0 <= i < m.output.len() implies processor_has_write(
        m.processor,
        (#[trigger] m.output[i]).cycle as nat,
        m.output[i].value as nat,
    ) by {
        let row = fin.output_rows[i];
        assert(out_row_ok(code, input, bits, n, row));
        let c = row.cycle;
        assert(proc_row_at(code, input, bits, c).ci == PUTCHAR as nat);
        lemma_state_at_prefix(code, input, bits, n, c);
        lemma_state_wf(code, input, bits, c);
        vstd::arithmetic::power2::lemma_pow2_pos(bits);
        vstd::bits::lemma_u64_pow2_no_overflow(bits);
        assert(reg_matches(m.processor[c as int], proc_row_at(code, input, bits, c)));
        assert(m.processor[c as int].cycle == c);
        assert(m.processor[c as int].current_instruction == PUTCHAR as nat);
        assert(m.processor[c as int].memory_value == row.value);
        assert(m.output[i].cycle as nat == c);
        assert(m.output[i].value as nat == row.value);
    }
}

/// Every write row of the processor table is committed in the output
/// table.
#[verifier::rlimit(100)]
proof fn lemma_writes_in_output(m: MatrixV, code: Seq<u64>, input: Seq<u64>, bits: nat, n: nat)
    requires
        run_env(code, input, bits),
        halted_at(code, input, bits, n),
        n <= 0xffff_ffff_ffff_ffff,
        matrix_matches(m, code, input, bits, n),
    ensures
        writes_in_output(m.processor, m.output),
{
    lemma_io_trace(code, input, bits, n);
    lemma_state_wf(code, input, bits, n);
    let fin = state_at(code, input, bits, n).unwrap();
    assert forall|i: int|
        0 <= i < m.processor.len() && (#[trigger] m.processor[i]).current_instruction
            == PUTCHAR as nat implies io_has(
        m.output,
        m.processor[i].cycle,
        m.processor[i].memory_value,
    ) by {
        assert(reg_matches(m.processor[i], proc_row_at(code, input, bits, i as nat)));
        lemma_state_at_prefix(code, input, bits, n, i as nat);
        lemma_state_wf(code, input, bits, i as nat);
        if i < n {
            let pair = IoPair {
                cycle: i as nat,
                value: proc_row_at(code, input, bits, i as nat).mv,
            };
            assert(fin.output_rows.contains(pair));
            vstd::arithmetic::power2::lemma_pow2_pos(bits);
            vstd::bits::lemma_u64_pow2_no_overflow(bits);
            let k = choose|k: int| 0 <= k < fin.output_rows.len() && fin.output_rows[k] == pair;
            assert(m.output[k].cycle as nat == i as nat);
            assert(m.output[k].value as nat == pair.value);
        } else {
            // the terminal row's opcode column reads zero
            let st = state_at(code, input, bits, n).unwrap();
            assert(proc_row_at(code, input, bits, n).ci == code_at(code, st.ip as int));
            assert(st.ip >= code.len());
            assert(false);
        }
    }
}

/// Every input row is bound to a processor row showing the consumed
/// value.
#[verifier::rlimit(100)]
proof fn lemma_input_in_processor(m: MatrixV, code: Seq<u64>, input: Seq<u64>, bits: nat, n: nat)
    requires
        run_env(code, input, bits),
        halted_at(code, input, bits, n),
        n <= 0xffff_ffff_ffff_ffff,
        matrix_matches(m, code, input, bits, n),
    ensures
        input_in_processor(m.input, m.processor),
{
    lemma_io_trace(code, input, bits, n);
    lemma_state_wf(code, input, bits, n);
    let fin = state_at(code, input, bits, n).unwrap();
    assert forall|i: int|
        0 <= i < m.input.len() implies processor_has_read(
        m.processor,
        (#[trigger] m.input[i]).cycle as nat,
        m.input[i].value as nat,
    ) by {
        let row = fin.input_rows[i];
        assert(in_row_ok(code, input, bits, n, row));
        let c = row.cycle;
        assert(1 <= c <= n);
        lemma_state_at_prefix(code, input, bits, n, c);
        lemma_state_wf(code, input, bits, c);
        vstd::arithmetic::power2::lemma_pow2_pos(bits);
        vstd::bits::lemma_u64_pow2_no_overflow(bits);
        assert(reg_matches(m.processor[c as int], proc_row_at(code, input, bits, c)));
        assert(m.processor[c as int].cycle == c);
        assert(m.processor[c as int].memory_value == row.value);
        assert(m.input[i].cycle as nat == c);
        assert(m.input[i].value as nat == row.value);
    }
}

/// Every read row of the processor table is bound to the committed
/// input table.
#[verifier::rlimit(100)]
proof fn lemma_reads_in_input(m: MatrixV, code: Seq<u64>, input: Seq<u64>, bits: nat, n: nat)
    requires
        run_env(code, input, bits),
        halted_at(code, input, bits, n),
        n <= 0xffff_ffff_ffff_ffff,
        matrix_matches(m, code, input, bits, n),
    ensures
        reads_in_input(m.processor, m.input),
{
    lemma_io_trace(code, input, bits, n);
    lemma_state_wf(code, input, bits, n);
    let fin = state_at(code, input, bits, n).unwrap();
    assert forall|i: int|
        0 <= i && i + 1 < m.processor.len() && (#[trigger] m.processor[i]).current_instruction
            == GETCHAR as nat implies io_has(
        m.input,
        m.processor[i + 1].cycle,
        m.processor[i + 1].memory_value,
    ) by {
        assert(reg_matches(m.processor[i], proc_row_at(code, input, bits, i as nat)));
        assert(reg_matches(m.processor[i + 1], proc_row_at(code, input, bits, (i + 1) as nat)));
        let pair = IoPair {
            cycle: (i + 1) as nat,
            value: proc_row_at(code, input, bits, (i + 1) as nat).mv,
        };
        assert(proc_row_at(code, input, bits, i as nat).ci == GETCHAR as nat);
        assert(i < n);
        lemma_state_at_prefix(code, input, bits, n, (i + 1) as nat);
        lemma_state_wf(code, input, bits, (i + 1) as nat);
        assert(m.processor[i + 1].cycle == (i + 1) as nat);
        assert(fin.input_rows.contains(pair));
        vstd::arithmetic::power2::lemma_pow2_pos(bits);
        vstd::bits::lemma_u64_pow2_no_overflow(bits);
        let k = choose|k: int| 0 <= k < fin.input_rows.len() && fin.input_rows[k] == pair;
        assert(m.input[k].cycle as nat == (i + 1) as nat);
        assert(m.input[k].value as nat == pair.value);
    }
}

/// Completeness of the whole constraint system: the tables of any run
/// the reference interpreter completes satisfy every gate and every
/// cross-table lookup, provided the halted instruction pointer is at
/// most the stream length (true of every compiled program, whose jump
/// targets stay inside the stream) and the gap witnesses of the two
/// public tables lie in the shared range table (a run whose reads or
/// writes are further apart than the cell range cannot be certified
/// with this range table).
#[verifier::rlimit(100)]
pub proof fn theorem_trace_satisfies_air(
    m: MatrixV,
    code: Seq<u64>,
    input: Seq<u64>,
    bits: nat,
    n: nat,
)
    requires
        run_env(code, input, bits),
        halted_at(code, input, bits, n),
        n <= 0xffff_ffff_ffff_ffff,
        state_at(code, input, bits, n).unwrap().ip <= code.len(),
        matrix_matches(m, code, input, bits, n),
        io_range_ok(m.input, bits),
        io_range_ok(m.output, bits),
    ensures
        spec_air_ok(m, bits),
{
    lemma_processor_gates_complete(m, code, input, bits, n);
    lemma_processor_range_complete(m, code, input, bits, n);
    lemma_processor_program_complete(m, code, input, bits, n);
    lemma_instruction_table_in_program(m, code, input, bits, n);
    lemma_memory_gates_complete(code, input, bits, n);
    lemma_memory_lookup_complete(m, code, input, bits, n);
    lemma_state_wf(code, input, bits, n);
    let fin = state_at(code, input, bits, n).unwrap();
    lemma_io_gates_complete(fin.input_rows, m.input, n + 1, bits);
    lemma_io_gates_complete(fin.output_rows, m.output, n, bits);
    lemma_output_in_processor(m, code, input, bits, n);
    lemma_writes_in_output(m, code, input, bits, n);
    lemma_input_in_processor(m, code, input, bits, n);
    lemma_reads_in_input(m, code, input, bits, n);
}

/// Determinism: two completed runs of the same program on the same
/// input leave byte-for-byte the same tables.
#[verifier::rlimit(100)]
pub proof fn lemma_run_deterministic(
    m1: MatrixV,
    m2: MatrixV,
    code: Seq<u64>,
    input: Seq<u64>,
    bits: nat,
    n1: nat,
    n2: nat,
)
    requires
        run_env(code, input, bits),
        halted_at(code, input, bits, n1),
        halted_at(code, input, bits, n2),
        matrix_matches(m1, code, input, bits, n1),
        matrix_matches(m2, code, input, bits, n2),
    ensures
        m1 == m2,
{
    lemma_order_large();
    if n1 < n2 {
        lemma_state_at_prefix(code, input, bits, n2, n1 + 1);
        assert(false);
    }
    if n2 < n1 {
        lemma_state_at_prefix(code, input, bits, n1, n2 + 1);
        assert(false);
    }
    let n = n1;
    assert forall|i: int| 0 <= i < m1.processor.len() implies m1.processor[i] == m2.processor[i] by {
        lemma_state_at_prefix(code, input, bits, n, i as nat);
        lemma_state_wf(code, input, bits, i as nat);
        vstd::arithmetic::power2::lemma_pow2_pos(bits);
        vstd::bits::lemma_u64_pow2_no_overflow(bits);
        let p = proc_row_at(code, input, bits, i as nat);
        assert(reg_matches(m1.processor[i], p));
        assert(reg_matches(m2.processor[i], p));
        if p.mv != 0 {
            crate::field::lemma_inverse_unique(
                p.mv,
                m1.processor[i].memory_value_inverse,
                m2.processor[i].memory_value_inverse,
            );
        }
    }
    assert(m1.processor =~= m2.processor);
    assert(m1 == m2);
}

} // verus!
