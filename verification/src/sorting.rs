use vstd::prelude::*;

use crate::matrix::{InstructionMatrixRow, MemoryMatrixRow};
use vstd::multiset::Multiset;

verus! {

// After a run, the instruction table is re-sorted by instruction pointer
// and the memory table by memory pointer with ties kept in cycle order.
// Both sorts are insertion sorts, pinned down by recursive specification
// functions, with permutation and sortedness proved below.

/// Order on memory rows: by address, ties by cycle.
pub open spec fn mem_le(a: MemoryMatrixRow, b: MemoryMatrixRow) -> bool {
    a.memory_pointer < b.memory_pointer || (a.memory_pointer == b.memory_pointer && a.cycle
        <= b.cycle)
}

/// Order on instruction rows: by instruction pointer.
pub open spec fn instr_le(a: InstructionMatrixRow, b: InstructionMatrixRow) -> bool {
    a.instruction_pointer <= b.instruction_pointer
}

/// Insertion of one row into an already ordered sequence, after every row
/// it does not precede (so equal keys keep their arrival order).
pub open spec fn spec_insert_instr(
    s: Seq<InstructionMatrixRow>,
    x: InstructionMatrixRow,
) -> Seq<InstructionMatrixRow>
    decreases s.len(),
{
    if s.len() == 0 {
        seq![x]
    } else if instr_le(s[0], x) {
        seq![s[0]] + spec_insert_instr(s.drop_first(), x)
    } else {
        seq![x] + s
    }
}

/// The insertion sort of a whole sequence of instruction rows.
pub open spec fn spec_sort_instr(s: Seq<InstructionMatrixRow>) -> Seq<InstructionMatrixRow>
    decreases s.len(),
{
    if s.len() == 0 {
        Seq::empty()
    } else {
        spec_insert_instr(spec_sort_instr(s.drop_last()), s.last())
    }
}

/// Insertion of one row into an already ordered memory table.
pub open spec fn spec_insert_mem(s: Seq<MemoryMatrixRow>, x: MemoryMatrixRow) -> Seq<
    MemoryMatrixRow,
>
    decreases s.len(),
{
    if s.len() == 0 {
        seq![x]
    } else if mem_le(s[0], x) {
        seq![s[0]] + spec_insert_mem(s.drop_first(), x)
    } else {
        seq![x] + s
    }
}

/// The insertion sort of a whole memory table.
pub open spec fn spec_sort_mem(s: Seq<MemoryMatrixRow>) -> Seq<MemoryMatrixRow>
    decreases s.len(),
{
    if s.len() == 0 {
        Seq::empty()
    } else {
        spec_insert_mem(spec_sort_mem(s.drop_last()), s.last())
    }
}

/// Global orderedness of an instruction table.
pub open spec fn instr_sorted(s: Seq<InstructionMatrixRow>) -> bool {
    forall|i: int, j: int| 0 <= i <= j < s.len() ==> instr_le(s[i], s[j])
}

/// Global orderedness of a memory table.
pub open spec fn mem_sorted(s: Seq<MemoryMatrixRow>) -> bool {
    forall|i: int, j: int| 0 <= i <= j < s.len() ==> mem_le(s[i], s[j])
}

// ------------------------------------------------------------------
// Facts about the sorts.
// ------------------------------------------------------------------

/// Inserting keeps exactly the rows, plus the new one.
pub proof fn lemma_insert_instr_multiset(s: Seq<InstructionMatrixRow>, x: InstructionMatrixRow)
    ensures
        spec_insert_instr(s, x).to_multiset() =~= s.to_multiset().insert(x),
        spec_insert_instr(s, x).len() == s.len() + 1,
    decreases s.len(),
{
    broadcast use vstd::seq_lib::group_to_multiset_ensures;

    if s.len() == 0 {
        assert(seq![x] =~= Seq::empty().push(x));
    } else if instr_le(s[0], x) {
        lemma_insert_instr_multiset(s.drop_first(), x);
        let rest = spec_insert_instr(s.drop_first(), x);
        assert(seq![s[0]] + rest =~= rest.insert(0, s[0]));
        vstd::seq_lib::lemma_multiset_commutative(seq![s[0]], rest);
        assert(seq![s[0]].to_multiset() =~= Multiset::empty().insert(s[0]));
        assert(s =~= s.drop_first().insert(0, s[0]));
        vstd::seq_lib::lemma_multiset_commutative(seq![s[0]], s.drop_first());
        assert(seq![s[0]] + s.drop_first() =~= s);
    } else {
        vstd::seq_lib::lemma_multiset_commutative(seq![x], s);
        assert(seq![x].to_multiset() =~= Multiset::empty().insert(x));
    }
}

/// Sorting keeps exactly the rows.
pub proof fn lemma_sort_instr_multiset(s: Seq<InstructionMatrixRow>)
    ensures
        spec_sort_instr(s).to_multiset() =~= s.to_multiset(),
        spec_sort_instr(s).len() == s.len(),
    decreases s.len(),
{
    broadcast use vstd::seq_lib::group_to_multiset_ensures;

    if s.len() > 0 {
        lemma_sort_instr_multiset(s.drop_last());
        lemma_insert_instr_multiset(spec_sort_instr(s.drop_last()), s.last());
        assert(s =~= s.drop_last().push(s.last()));
    }
}

/// Inserting into an ordered table keeps it ordered.
pub proof fn lemma_insert_instr_sorted(s: Seq<InstructionMatrixRow>, x: InstructionMatrixRow)
    requires
        instr_sorted(s),
    ensures
        instr_sorted(spec_insert_instr(s, x)),
    decreases s.len(),
{
    if s.len() == 0 {
    } else if instr_le(s[0], x) {
        assert(instr_sorted(s.drop_first()));
        lemma_insert_instr_sorted(s.drop_first(), x);
        let r = spec_insert_instr(s, x);
        let rest = spec_insert_instr(s.drop_first(), x);
        lemma_insert_instr_multiset(s.drop_first(), x);
        assert forall|i: int, j: int| 0 <= i <= j < r.len() implies instr_le(r[i], r[j]) by {
            if i == 0 && j > 0 {
                // r[j] is either x or one of the rows already present
                assert(r[j] == rest[j - 1]);
                lemma_insert_instr_member(s.drop_first(), x, j - 1);
            }
        }
    } else {
        let r = seq![x] + s;
        assert forall|i: int, j: int| 0 <= i <= j < r.len() implies instr_le(r[i], r[j]) by {
            if i == 0 && j > 0 {
                assert(instr_le(x, s[0]));
                if j > 0 {
                    assert(instr_le(s[0], s[j - 1]));
                }
            }
        }
    }
}

/// Every row of an insertion result is the new row or one of the old rows.
proof fn lemma_insert_instr_member(s: Seq<InstructionMatrixRow>, x: InstructionMatrixRow, j: int)
    requires
        0 <= j < spec_insert_instr(s, x).len(),
    ensures
        spec_insert_instr(s, x)[j] == x || exists|k: int|
            0 <= k < s.len() && spec_insert_instr(s, x)[j] == s[k],
    decreases s.len(),
{
    if s.len() == 0 {
    } else if instr_le(s[0], x) {
        if j > 0 {
            lemma_insert_instr_member(s.drop_first(), x, j - 1);
            let r = spec_insert_instr(s.drop_first(), x);
            if r[j - 1] != x {
                let k = choose|k: int| 0 <= k < s.drop_first().len() && r[j - 1]
                    == s.drop_first()[k];
                assert(spec_insert_instr(s, x)[j] == s[k + 1]);
            }
        } else {
            assert(spec_insert_instr(s, x)[0] == s[0]);
        }
    }
}

/// The sort's result is ordered.
pub proof fn lemma_sort_instr_sorted(s: Seq<InstructionMatrixRow>)
    ensures
        instr_sorted(spec_sort_instr(s)),
    decreases s.len(),
{
    if s.len() > 0 {
        lemma_sort_instr_sorted(s.drop_last());
        lemma_insert_instr_sorted(spec_sort_instr(s.drop_last()), s.last());
    }
}

/// Inserting keeps exactly the rows, plus the new one.
pub proof fn lemma_insert_mem_multiset(s: Seq<MemoryMatrixRow>, x: MemoryMatrixRow)
    ensures
        spec_insert_mem(s, x).to_multiset() =~= s.to_multiset().insert(x),
        spec_insert_mem(s, x).len() == s.len() + 1,
    decreases s.len(),
{
    broadcast use vstd::seq_lib::group_to_multiset_ensures;

    if s.len() == 0 {
        assert(seq![x] =~= Seq::empty().push(x));
    } else if mem_le(s[0], x) {
        lemma_insert_mem_multiset(s.drop_first(), x);
        let rest = spec_insert_mem(s.drop_first(), x);
        vstd::seq_lib::lemma_multiset_commutative(seq![s[0]], rest);
        assert(seq![s[0]].to_multiset() =~= Multiset::empty().insert(s[0]));
        vstd::seq_lib::lemma_multiset_commutative(seq![s[0]], s.drop_first());
        assert(seq![s[0]] + s.drop_first() =~= s);
    } else {
        vstd::seq_lib::lemma_multiset_commutative(seq![x], s);
        assert(seq![x].to_multiset() =~= Multiset::empty().insert(x));
    }
}

/// Sorting keeps exactly the rows.
pub proof fn lemma_sort_mem_multiset(s: Seq<MemoryMatrixRow>)
    ensures
        spec_sort_mem(s).to_multiset() =~= s.to_multiset(),
        spec_sort_mem(s).len() == s.len(),
    decreases s.len(),
{
    broadcast use vstd::seq_lib::group_to_multiset_ensures;

    if s.len() > 0 {
        lemma_sort_mem_multiset(s.drop_last());
        lemma_insert_mem_multiset(spec_sort_mem(s.drop_last()), s.last());
        assert(s =~= s.drop_last().push(s.last()));
    }
}

/// Every row of an insertion result is the new row or one of the old rows.
proof fn lemma_insert_mem_member(s: Seq<MemoryMatrixRow>, x: MemoryMatrixRow, j: int)
    requires
        0 <= j < spec_insert_mem(s, x).len(),
    ensures
        spec_insert_mem(s, x)[j] == x || exists|k: int|
            0 <= k < s.len() && spec_insert_mem(s, x)[j] == s[k],
    decreases s.len(),
{
    if s.len() == 0 {
    } else if mem_le(s[0], x) {
        if j > 0 {
            lemma_insert_mem_member(s.drop_first(), x, j - 1);
            let r = spec_insert_mem(s.drop_first(), x);
            if r[j - 1] != x {
                let k = choose|k: int| 0 <= k < s.drop_first().len() && r[j - 1]
                    == s.drop_first()[k];
                assert(spec_insert_mem(s, x)[j] == s[k + 1]);
            }
        } else {
            assert(spec_insert_mem(s, x)[0] == s[0]);
        }
    }
}

/// Inserting into an ordered table keeps it ordered.
pub proof fn lemma_insert_mem_sorted(s: Seq<MemoryMatrixRow>, x: MemoryMatrixRow)
    requires
        mem_sorted(s),
    ensures
        mem_sorted(spec_insert_mem(s, x)),
    decreases s.len(),
{
    if s.len() == 0 {
    } else if mem_le(s[0], x) {
        assert(mem_sorted(s.drop_first()));
        lemma_insert_mem_sorted(s.drop_first(), x);
        let r = spec_insert_mem(s, x);
        let rest = spec_insert_mem(s.drop_first(), x);
        assert forall|i: int, j: int| 0 <= i <= j < r.len() implies mem_le(r[i], r[j]) by {
            if i == 0 && j > 0 {
                assert(r[j] == rest[j - 1]);
                lemma_insert_mem_member(s.drop_first(), x, j - 1);
            }
        }
    } else {
        let r = seq![x] + s;
        assert forall|i: int, j: int| 0 <= i <= j < r.len() implies mem_le(r[i], r[j]) by {
            if i == 0 && j > 0 {
                assert(!mem_le(s[0], x));
                assert(mem_le(s[0], s[j - 1]));
            }
        }
    }
}

/// The sort's result is ordered.
pub proof fn lemma_sort_mem_sorted(s: Seq<MemoryMatrixRow>)
    ensures
        mem_sorted(spec_sort_mem(s)),
    decreases s.len(),
{
    if s.len() > 0 {
        lemma_sort_mem_sorted(s.drop_last());
        lemma_insert_mem_sorted(spec_sort_mem(s.drop_last()), s.last());
    }
}

// ------------------------------------------------------------------
// Executable sorts.
// ------------------------------------------------------------------

/// Closed form of insertion at the first admissible position.
proof fn lemma_insert_instr_at(s: Seq<InstructionMatrixRow>, x: InstructionMatrixRow, p: int)
    requires
        0 <= p <= s.len(),
        forall|i: int| 0 <= i < p ==> instr_le(s[i], x),
        p < s.len() ==> !instr_le(s[p], x),
    ensures
        spec_insert_instr(s, x) =~= s.subrange(0, p) + seq![x] + s.subrange(p, s.len() as int),
    decreases s.len(),
{
    if s.len() == 0 {
    } else if p == 0 {
        assert(!instr_le(s[0], x));
        assert(s.subrange(0, s.len() as int) =~= s);
    } else {
        lemma_insert_instr_at(s.drop_first(), x, p - 1);
        assert(s.drop_first().subrange(0, p - 1) =~= s.subrange(1, p));
        assert(s.drop_first().subrange(p - 1, s.drop_first().len() as int) =~= s.subrange(
            p,
            s.len() as int,
        ));
    }
}

/// Closed form of insertion at the first admissible position.
proof fn lemma_insert_mem_at(s: Seq<MemoryMatrixRow>, x: MemoryMatrixRow, p: int)
    requires
        0 <= p <= s.len(),
        forall|i: int| 0 <= i < p ==> mem_le(s[i], x),
        p < s.len() ==> !mem_le(s[p], x),
    ensures
        spec_insert_mem(s, x) =~= s.subrange(0, p) + seq![x] + s.subrange(p, s.len() as int),
    decreases s.len(),
{
    if s.len() == 0 {
    } else if p == 0 {
        assert(!mem_le(s[0], x));
        assert(s.subrange(0, s.len() as int) =~= s);
    } else {
        lemma_insert_mem_at(s.drop_first(), x, p - 1);
        assert(s.drop_first().subrange(0, p - 1) =~= s.subrange(1, p));
        assert(s.drop_first().subrange(p - 1, s.drop_first().len() as int) =~= s.subrange(
            p,
            s.len() as int,
        ));
    }
}

fn insert_instruction_row(v: &Vec<InstructionMatrixRow>, x: InstructionMatrixRow) -> (r: Vec<
    InstructionMatrixRow,
>)
    ensures
        r@ == spec_insert_instr(v@, x),
{
    let n = v.len();
    let mut p: usize = 0;
    while p < n && v[p].instruction_pointer <= x.instruction_pointer
        invariant
            p <= n,
            n == v@.len(),
            forall|i: int| 0 <= i < p ==> instr_le(v@[i], x),
        decreases n - p,
    {
        p = p + 1;
    }
    let mut out: Vec<InstructionMatrixRow> = Vec::new();
    let mut i: usize = 0;
    while i < p
        invariant
            p <= n == v@.len(),
            i <= p,
            out@ =~= v@.subrange(0, i as int),
        decreases p - i,
    {
        out.push(v[i]);
        i = i + 1;
    }
    out.push(x);
    let mut j: usize = p;
    while j < n
        invariant
            p <= j <= n,
            n == v@.len(),
            out@ =~= v@.subrange(0, p as int) + seq![x] + v@.subrange(p as int, j as int),
        decreases n - j,
    {
        out.push(v[j]);
        j = j + 1;
    }
    proof {
        lemma_insert_instr_at(v@, x, p as int);
        assert(out@ =~= spec_insert_instr(v@, x));
    }
    out
}

fn insert_memory_row(v: &Vec<MemoryMatrixRow>, x: MemoryMatrixRow) -> (r: Vec<MemoryMatrixRow>)
    ensures
        r@ == spec_insert_mem(v@, x),
{
    let n = v.len();
    let mut p: usize = 0;
    while p < n && (v[p].memory_pointer < x.memory_pointer || (v[p].memory_pointer
        == x.memory_pointer && v[p].cycle <= x.cycle))
        invariant
            p <= n,
            n == v@.len(),
            forall|i: int| 0 <= i < p ==> mem_le(v@[i], x),
        decreases n - p,
    {
        p = p + 1;
    }
    let mut out: Vec<MemoryMatrixRow> = Vec::new();
    let mut i: usize = 0;
    while i < p
        invariant
            p <= n == v@.len(),
            i <= p,
            out@ =~= v@.subrange(0, i as int),
        decreases p - i,
    {
        out.push(v[i]);
        i = i + 1;
    }
    out.push(x);
    let mut j: usize = p;
    while j < n
        invariant
            p <= j <= n,
            n == v@.len(),
            out@ =~= v@.subrange(0, p as int) + seq![x] + v@.subrange(p as int, j as int),
        decreases n - j,
    {
        out.push(v[j]);
        j = j + 1;
    }
    proof {
        lemma_insert_mem_at(v@, x, p as int);
        assert(out@ =~= spec_insert_mem(v@, x));
    }
    out
}

/// Sorts the instruction table by instruction pointer, equal pointers
/// keeping their arrival order.
pub fn sort_instruction_rows(v: &Vec<InstructionMatrixRow>) -> (r: Vec<InstructionMatrixRow>)
    ensures
        r@ == spec_sort_instr(v@),
{
    let mut out: Vec<InstructionMatrixRow> = Vec::new();
    let mut i: usize = 0;
    proof {
        assert(v@.subrange(0, 0) =~= Seq::empty());
        assert(out@ =~= spec_sort_instr(v@.subrange(0, 0)));
    }
    while i < v.len()
        invariant
            i <= v@.len(),
            out@ == spec_sort_instr(v@.subrange(0, i as int)),
        decreases v@.len() - i,
    {
        out = insert_instruction_row(&out, v[i]);
        proof {
            assert(v@.subrange(0, (i + 1) as int).drop_last() =~= v@.subrange(0, i as int));
        }
        i = i + 1;
    }
    proof {
        assert(v@.subrange(0, v@.len() as int) =~= v@);
    }
    out
}

/// Sorts the memory table by address, equal addresses by cycle.
pub fn sort_memory_rows(v: &Vec<MemoryMatrixRow>) -> (r: Vec<MemoryMatrixRow>)
    ensures
        r@ == spec_sort_mem(v@),
{
    let mut out: Vec<MemoryMatrixRow> = Vec::new();
    let mut i: usize = 0;
    proof {
        assert(v@.subrange(0, 0) =~= Seq::empty());
        assert(out@ =~= spec_sort_mem(v@.subrange(0, 0)));
    }
    while i < v.len()
        invariant
            i <= v@.len(),
            out@ == spec_sort_mem(v@.subrange(0, i as int)),
        decreases v@.len() - i,
    {
        out = insert_memory_row(&out, v[i]);
        proof {
            assert(v@.subrange(0, (i + 1) as int).drop_last() =~= v@.subrange(0, i as int));
        }
        i = i + 1;
    }
    proof {
        assert(v@.subrange(0, v@.len() as int) =~= v@);
    }
    out
}

} // verus!
