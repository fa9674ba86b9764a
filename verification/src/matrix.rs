use vstd::prelude::*;

use crate::interpreter::{RegV, Register};

verus! {

// The five trace tables are flat, ordered sequences of rows.  During a run
// the interpreter alone appends to them; afterwards they are read-only
// inputs to the constraint checker.

/// One row of the program or instruction table.
#[derive(Clone, Copy, Debug, PartialEq, Eq, Structural)]
pub struct InstructionMatrixRow {
    pub instruction_pointer: u64,
    pub current_instruction: u64,
    pub next_instruction: u64,
}

/// One row of the memory table.  The interleave indicator is reserved for
/// synthetic continuity rows and is always zero in generated traces.
#[derive(Clone, Copy, Debug, PartialEq, Eq, Structural)]
pub struct MemoryMatrixRow {
    pub cycle: u64,
    pub memory_pointer: u64,
    pub memory_value: u64,
    pub interweave_indicator: u64,
}

/// One row of the input or output table: a public value, the cycle it is
/// bound to, and the auxiliary gap witness for the cycle-monotonicity gate.
#[derive(Clone, Copy, Debug, PartialEq, Eq, Structural)]
pub struct IOMatrixRow {
    pub cycle: u64,
    pub value: u64,
    pub diff: u64,
}

/// The full collection of trace tables produced by one run, plus the
/// static program table fixed at load time.
pub struct Matrix {
    pub processor_matrix: Vec<Register>,
    pub instruction_matrix: Vec<InstructionMatrixRow>,
    pub memory_matrix: Vec<MemoryMatrixRow>,
    pub input_matrix: Vec<IOMatrixRow>,
    pub output_matrix: Vec<IOMatrixRow>,
    pub program: Vec<InstructionMatrixRow>,
}

/// The register views of a processor table.
pub open spec fn regs_of(s: Seq<Register>) -> Seq<RegV> {
    s.map_values(|r: Register| r@)
}

/// Length of `regs_of`.
pub broadcast proof fn lemma_regs_of_len(s: Seq<Register>)
    ensures
        #[trigger] regs_of(s).len() == s.len(),
{
}

/// Pointwise reading of `regs_of`.
pub broadcast proof fn lemma_regs_of_index(s: Seq<Register>, i: int)
    requires
        0 <= i < s.len(),
    ensures
        #[trigger] regs_of(s)[i] == s[i]@,
        regs_of(s).len() == s.len(),
{
}

/// Mathematical view of a `Matrix`: plain sequences of rows, with
/// processor registers abstracted to their integer views.
pub ghost struct MatrixV {
    pub processor: Seq<RegV>,
    pub instruction: Seq<InstructionMatrixRow>,
    pub memory: Seq<MemoryMatrixRow>,
    pub input: Seq<IOMatrixRow>,
    pub output: Seq<IOMatrixRow>,
    pub program: Seq<InstructionMatrixRow>,
}

impl View for Matrix {
    type V = MatrixV;

    open spec fn view(&self) -> MatrixV {
        MatrixV {
            processor: regs_of(self.processor_matrix@),
            instruction: self.instruction_matrix@,
            memory: self.memory_matrix@,
            input: self.input_matrix@,
            output: self.output_matrix@,
            program: self.program@,
        }
    }
}

impl InstructionMatrixRow {
    /// The instruction-table projection of a register snapshot.
    pub fn of_register(r: &Register) -> (row: InstructionMatrixRow)
        ensures
            row.instruction_pointer == r.instruction_pointer,
            row.current_instruction == r.current_instruction,
            row.next_instruction == r.next_instruction,
    {
        InstructionMatrixRow {
            instruction_pointer: r.instruction_pointer,
            current_instruction: r.current_instruction,
            next_instruction: r.next_instruction,
        }
    }
}

impl MemoryMatrixRow {
    /// The memory-table projection of a register snapshot.
    pub fn of_register(r: &Register) -> (row: MemoryMatrixRow)
        ensures
            row.cycle == r.cycle,
            row.memory_pointer == r.memory_pointer,
            row.memory_value == r.memory_value,
            row.interweave_indicator == 0,
    {
        MemoryMatrixRow {
            cycle: r.cycle,
            memory_pointer: r.memory_pointer,
            memory_value: r.memory_value,
            interweave_indicator: 0,
        }
    }
}


/// Compares two register snapshots by their integer views.
pub fn register_eq(a: &Register, b: &Register) -> (r: bool)
    ensures
        r == (a@ == b@),
{
    a.cycle == b.cycle && a.instruction_pointer == b.instruction_pointer
        && a.current_instruction == b.current_instruction && a.next_instruction
        == b.next_instruction && a.memory_pointer == b.memory_pointer && a.memory_value
        == b.memory_value && crate::field::fr_eq(&a.memory_value_inverse, &b.memory_value_inverse)
}

/// Compares two table collections by their views: every row of every
/// table, with register rows compared by represented values.
#[verifier::loop_isolation(false)]
pub fn matrix_eq(a: &Matrix, b: &Matrix) -> (r: bool)
    ensures
        r == (a@ == b@),
{
    if a.processor_matrix.len() != b.processor_matrix.len() || a.instruction_matrix.len()
        != b.instruction_matrix.len() || a.memory_matrix.len() != b.memory_matrix.len()
        || a.input_matrix.len() != b.input_matrix.len() || a.output_matrix.len()
        != b.output_matrix.len() || a.program.len() != b.program.len() {
        proof {
            lemma_regs_of_len(a.processor_matrix@);
            lemma_regs_of_len(b.processor_matrix@);
        }
        return false;
    }
    let n0 = a.processor_matrix.len();
    let mut i: usize = 0;
    while i < n0
        invariant
            i <= n0,
            forall|k: int| 0 <= k < i ==> a@.processor[k] == b@.processor[k],
        decreases n0 - i,
    {
        proof {
            assert(a@.processor[i as int] == a.processor_matrix@[i as int]@);
            assert(b@.processor[i as int] == b.processor_matrix@[i as int]@);
        }
        if !register_eq(&a.processor_matrix[i], &b.processor_matrix[i]) {
            return false;
        }
        i = i + 1;
    }
    proof {
        assert(a@.processor =~= b@.processor);
    }
    let n1 = a.instruction_matrix.len();
    let mut i: usize = 0;
    while i < n1
        invariant
            i <= n1,
            forall|k: int| 0 <= k < i ==> a@.instruction[k] == b@.instruction[k],
        decreases n1 - i,
    {
        if !(a.instruction_matrix[i] == b.instruction_matrix[i]) {
            return false;
        }
        i = i + 1;
    }
    proof {
        assert(a@.instruction =~= b@.instruction);
    }
    let n2 = a.memory_matrix.len();
    let mut i: usize = 0;
    while i < n2
        invariant
            i <= n2,
            forall|k: int| 0 <= k < i ==> a@.memory[k] == b@.memory[k],
        decreases n2 - i,
    {
        if !(a.memory_matrix[i] == b.memory_matrix[i]) {
            return false;
        }
        i = i + 1;
    }
    proof {
        assert(a@.memory =~= b@.memory);
    }
    let n3 = a.input_matrix.len();
    let mut i: usize = 0;
    while i < n3
        invariant
            i <= n3,
            forall|k: int| 0 <= k < i ==> a@.input[k] == b@.input[k],
        decreases n3 - i,
    {
        if !(a.input_matrix[i] == b.input_matrix[i]) {
            return false;
        }
        i = i + 1;
    }
    proof {
        assert(a@.input =~= b@.input);
    }
    let n4 = a.output_matrix.len();
    let mut i: usize = 0;
    while i < n4
        invariant
            i <= n4,
            forall|k: int| 0 <= k < i ==> a@.output[k] == b@.output[k],
        decreases n4 - i,
    {
        if !(a.output_matrix[i] == b.output_matrix[i]) {
            return false;
        }
        i = i + 1;
    }
    proof {
        assert(a@.output =~= b@.output);
    }
    let n5 = a.program.len();
    let mut i: usize = 0;
    while i < n5
        invariant
            i <= n5,
            forall|k: int| 0 <= k < i ==> a@.program[k] == b@.program[k],
        decreases n5 - i,
    {
        if !(a.program[i] == b.program[i]) {
            return false;
        }
        i = i + 1;
    }
    proof {
        assert(a@.program =~= b@.program);
    }
    true
}

} // verus!
