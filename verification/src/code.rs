use vstd::prelude::*;

use crate::field::{fr_from_u64, fr_value};
use crate::{spec_is_opcode, is_opcode, LB, RB};
use halo2curves::bn256::Fr;
use vstd::string::StringSliceAdditionalSpecFns;

verus! {

// The program compiler: raw bytes are filtered down to the eight opcodes,
// and each jump opcode is immediately followed by its resolved target
// index.  A forward jump reserves a placeholder slot; the matching
// backward jump fills it in and records its own re-entry target.
//
// Targets are held as 16-bit integers; the input length bound below keeps
// every stream position representable in that width, so resolution is
// exact.  Unbalanced jumps of either kind are rejected.

/// The one way compilation can fail: a jump without its partner.
#[derive(Clone, Copy, Debug, PartialEq, Eq, Structural)]
pub enum CompileError {
    MismatchedBracket,
}

/// State of the compiler after some prefix of the input: the emitted
/// stream and the stack of unfilled forward-jump slots.
pub ghost struct CompilerState {
    pub instrs: Seq<u16>,
    pub jstack: Seq<nat>,
}

/// One input byte's effect on the compiler state; `None` is a backward
/// jump with no forward jump open.
pub open spec fn comp_step(st: CompilerState, b: u8) -> Option<CompilerState> {
    if !spec_is_opcode(b as u64) {
        Some(st)
    } else {
        let base = st.instrs.push(b as u16);
        if b == LB {
            Some(
                CompilerState {
                    instrs: base.push(0u16),
                    jstack: st.jstack.push(base.len()),
                },
            )
        } else if b == RB {
            if st.jstack.len() == 0 {
                None
            } else {
                let j = st.jstack.last();
                let with_target = base.push((j + 1) as u16);
                Some(
                    CompilerState {
                        instrs: with_target.update(j as int, with_target.len() as u16),
                        jstack: st.jstack.drop_last(),
                    },
                )
            }
        } else {
            Some(CompilerState { instrs: base, jstack: st.jstack })
        }
    }
}

/// Compiler state after the first `i` input bytes.
pub open spec fn comp_run(code: Seq<u8>, i: int) -> Option<CompilerState>
    decreases i,
{
    if i <= 0 {
        Some(CompilerState { instrs: Seq::empty(), jstack: Seq::empty() })
    } else {
        match comp_run(code, i - 1) {
            Option::None => Option::None,
            Option::Some(st) => comp_step(st, code[i - 1]),
        }
    }
}

/// The compiled stream of a whole program, or `None` if some jump is
/// unbalanced (in either direction).
pub open spec fn spec_compile(code: Seq<u8>) -> Option<Seq<u16>> {
    match comp_run(code, code.len() as int) {
        Option::None => Option::None,
        Option::Some(st) => if st.jstack.len() == 0 {
            Option::Some(st.instrs)
        } else {
            Option::None
        },
    }
}

/// Once a step has failed, every longer prefix fails too.
proof fn lemma_comp_run_none_absorbs(code: Seq<u8>, i: int, j: int)
    requires
        0 <= i <= j,
        comp_run(code, i) is None,
    ensures
        comp_run(code, j) is None,
    decreases j - i,
{
    if j > i {
        lemma_comp_run_none_absorbs(code, i, j - 1);
    }
}

/// Sizes stay in range: the stream grows by at most two entries per input
/// byte, and every open slot index points into the stream.
proof fn lemma_comp_run_bounds(code: Seq<u8>, i: int)
    requires
        0 <= i,
        comp_run(code, i) is Some,
    ensures
        comp_run(code, i).unwrap().instrs.len() <= 2 * i,
        forall|k: int|
            0 <= k < comp_run(code, i).unwrap().jstack.len() ==> comp_run(
                code,
                i,
            ).unwrap().jstack[k] < comp_run(code, i).unwrap().instrs.len(),
    decreases i,
{
    if i > 0 {
        lemma_comp_run_bounds(code, i - 1);
    }
}

/// Compiles raw program bytes to a jump-resolved instruction stream.
///
/// Non-opcode bytes are discarded.  Each forward jump is followed by the
/// stream position just past its matching backward jump's pair, and each
/// backward jump is followed by the position just past its matching
/// forward jump's slot.  An unbalanced jump yields `MismatchedBracket`.
pub fn compile_to_u16(code: Vec<u8>) -> (r: Result<Vec<u16>, CompileError>)
    requires
        code@.len() <= 32767,
    ensures
        match r {
            Ok(v) => spec_compile(code@) == Some(v@),
            Err(e) => spec_compile(code@) is None && e == CompileError::MismatchedBracket,
        },
{
    let n = code.len();
    let mut instrs: Vec<u16> = Vec::new();
    let mut jstack: Vec<usize> = Vec::new();
    let mut idx: usize = 0;
    proof {
        assert(instrs@ =~= Seq::<u16>::empty());
        assert(jstack@.map_values(|x: usize| x as nat) =~= Seq::<nat>::empty());
    }
    while idx < n
        invariant
            idx <= n,
            n == code@.len() <= 32767,
            comp_run(code@, idx as int) == Some(
                CompilerState {
                    instrs: instrs@,
                    jstack: jstack@.map_values(|x: usize| x as nat),
                },
            ),
            instrs@.len() <= 2 * idx,
            forall|k: int| 0 <= k < jstack@.len() ==> jstack@[k] < instrs@.len(),
        decreases n - idx,
    {
        let ghost pre = CompilerState {
            instrs: instrs@,
            jstack: jstack@.map_values(|x: usize| x as nat),
        };
        let b = code[idx];
        if is_opcode(b as u64) {
            instrs.push(b as u16);
            if b == LB {
                instrs.push(0u16);
                jstack.push(instrs.len() - 1);
            } else if b == RB {
                if jstack.len() == 0 {
                    proof {
                        assert(comp_step(pre, b) is None);
                        lemma_comp_run_none_absorbs(code@, idx + 1, n as int);
                    }
                    return Err(CompileError::MismatchedBracket);
                }
                let j = jstack[jstack.len() - 1];
                instrs.push(j as u16 + 1);
                let l = instrs.len() as u16;
                instrs.set(j, l);
                jstack.pop();
                proof {
                    assert(jstack@.map_values(|x: usize| x as nat) =~= pre.jstack.drop_last());
                }
            }
        }
        proof {
            assert(jstack@.map_values(|x: usize| x as nat) =~= comp_step(
                pre,
                b,
            ).unwrap().jstack);
            assert(instrs@ =~= comp_step(pre, b).unwrap().instrs);
        }
        idx = idx + 1;
    }
    if jstack.len() > 0 {
        return Err(CompileError::MismatchedBracket);
    }
    Ok(instrs)
}

/// Field-encodes a byte string, one element per byte.
///
/// Uses the exact embedding of small integers into the field.
pub fn easygen(code: &str) -> (r: Vec<Fr>)
    ensures
        r@.len() == code.spec_bytes().len(),
        forall|i: int|
            0 <= i < r@.len() ==> fr_value(r@[i]) == code.spec_bytes()[i] as nat,
{
    let bytes = code.as_bytes();
    let mut out: Vec<Fr> = Vec::new();
    let mut i: usize = 0;
    while i < bytes.len()
        invariant
            i <= bytes@.len(),
            bytes@ == code.spec_bytes(),
            out@.len() == i,
            forall|k: int| 0 <= k < i ==> fr_value(out@[k]) == code.spec_bytes()[k] as nat,
        decreases bytes@.len() - i,
    {
        out.push(fr_from_u64(bytes[i] as u64));
        i = i + 1;
    }
    out
}

/// Compiles and field-encodes a program in one step.
pub fn compile(code: Vec<u8>) -> (r: Result<Vec<Fr>, CompileError>)
    requires
        code@.len() <= 32767,
    ensures
        match r {
            Ok(v) => {
                &&& spec_compile(code@) matches Some(s)
                &&& v@.len() == s.len()
                &&& forall|i: int| 0 <= i < v@.len() ==> fr_value(v@[i]) == s[i] as nat
            },
            Err(e) => spec_compile(code@) is None && e == CompileError::MismatchedBracket,
        },
{
    let u = match compile_to_u16(code) {
        Ok(v) => v,
        Err(e) => {
            return Err(e);
        },
    };
    let mut out: Vec<Fr> = Vec::new();
    let mut i: usize = 0;
    while i < u.len()
        invariant
            i <= u@.len(),
            out@.len() == i,
            forall|k: int| 0 <= k < i ==> fr_value(out@[k]) == u@[k] as nat,
        decreases u@.len() - i,
    {
        out.push(fr_from_u64(u[i] as u64));
        i = i + 1;
    }
    Ok(out)
}

} // verus!
