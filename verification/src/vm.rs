//! The dual-mode virtual machine: a stack engine that computes concrete
//! results natively while recording, through the backend, the constraint
//! gates that tie every result to its operands.
//!
//! Control flow is circuit-shaped: both arms of a conditional execute, and
//! `EndIf` merges every value either arm wrote through selection gates.

use vstd::prelude::*;
use crate::backend::Backend;
use crate::backend::Gate;
use crate::backend::gate_in_bounds;
use crate::backend::gate_holds;
use crate::backend::GateOp;
use crate::value::scalar_in_range;
use crate::instruction::Instruction;
use crate::value::Value;
use crate::value::BOOLEAN_BIT_LENGTH;
use vstd::arithmetic::power2::pow2;

verus! {

/// A fatal execution error; the run aborts at the instruction that met it.
#[derive(Clone, Copy, Debug, PartialEq, Eq, Structural)]
pub enum RuntimeError {
    /// A pop on an empty region of the evaluation stack.
    StackUnderflow,
    /// A storage access outside the allocated region.
    OutOfBounds,
    /// Division or remainder with a zero divisor.
    DivisionByZero,
    /// Operand scalar types do not agree with the operation.
    TypeMismatch,
    /// A result fell outside its scalar type's range.
    Overflow,
    /// An `Else` or `EndIf` without an open condition, or a control-flow
    /// boundary crossed with conditions still open.
    UnbalancedConditions,
    /// The two arms of a conditional produced different stack growth.
    UnbalancedBranches,
    /// A runtime-computed index or address carried no concrete value.
    ExpectedConstant,
    /// A `Return` at the outermost frame.
    CallStackUnderflow,
    /// A `LoopEnd` without an open loop, or a loop of zero iterations.
    UnbalancedLoop,
    /// An `Exit` below the outermost frame.
    ExitInFunction,
    /// The program ran past its last instruction without an `Exit`.
    UnexpectedEnd,
    /// A `CallBuiltin` whose identifier the backend does not resolve.
    UnresolvedBuiltin,
    /// An `Assert` met the false bit while its selector conjunction was live.
    AssertionFailed,
    /// The caller's step budget ran out before the program exited.
    OutOfFuel,
}

/// An activation record.
#[derive(Clone, Copy, Debug)]
pub struct CallFrame {
    pub return_address: usize,
    pub local_base: usize,
    pub stack_height: usize,
}

/// An open statically-unrolled loop.
#[derive(Clone, Copy, Debug)]
pub struct LoopFrame {
    pub start: usize,
    pub remaining: usize,
}

/// One data-stack cell written inside an open conditional, with the value it
/// held before the conditional and, once `Else` has run, the value the then
/// arm left.
#[derive(Clone, Copy, Debug)]
pub struct BranchWrite {
    pub address: usize,
    pub original: Value,
    pub then_value: Option<Value>,
}

/// One line of debug output: the format text and the concrete halves of the
/// popped arguments, deepest first.
pub struct DbgRecord {
    pub text: String,
    pub args: Vec<Option<i128>>,
}

/// One open conditional region. `live` is the conjunction of the effective
/// selectors of this frame and every enclosing one: the bit that decides
/// whether side effects in the region are observable.
pub struct CondFrame {
    pub selector: Value,
    pub live: Value,
    pub in_else: bool,
    pub stack_fork: usize,
    pub then_stack: Vec<Value>,
    pub writes: Vec<BranchWrite>,
}

/// The value is well formed and its witness carries exactly its concrete
/// half.
pub open spec fn value_ok(v: Value, w: Seq<Option<i128>>) -> bool {
    &&& v.wf()
    &&& (v.witness as int) < w.len()
    &&& w[v.witness as int] == v.concrete
}

pub open spec fn values_ok(s: Seq<Value>, w: Seq<Option<i128>>) -> bool {
    forall|i: int| 0 <= i < s.len() ==> value_ok(#[trigger] s[i], w)
}

/// The virtual machine: program, evaluation stack, flat data stack (globals
/// below `globals_end`, frame locals above), control stacks, backend, and
/// the run's outputs and debug log.
pub struct VirtualMachine {
    pub program: Vec<Instruction>,
    pub pc: usize,
    pub stack: Vec<Value>,
    pub memory: Vec<Value>,
    pub globals_end: usize,
    pub frames: Vec<CallFrame>,
    pub conditions: Vec<CondFrame>,
    pub loops: Vec<LoopFrame>,
    pub backend: Backend,
    pub outputs: Option<Vec<Value>>,
    pub log: Vec<DbgRecord>,
}

impl VirtualMachine {
    /// Base of the current frame's locals in the data stack.
    pub open spec fn spec_local_base(self) -> int {
        if self.frames@.len() == 0 {
            self.globals_end as int
        } else {
            self.frames@.last().local_base as int
        }
    }

    /// Height of the evaluation stack the current context may not pop below:
    /// the innermost open condition's fork, else the current frame's floor.
    pub open spec fn spec_stack_floor(self) -> int {
        if self.conditions@.len() > 0 {
            self.conditions@.last().stack_fork as int
        } else if self.frames@.len() > 0 {
            self.frames@.last().stack_height as int
        } else {
            0
        }
    }

    pub open spec fn cond_ok(c: CondFrame, w: Seq<Option<i128>>, mem_len: int) -> bool {
        &&& value_ok(c.selector, w)
        &&& c.selector.is_boolean()
        &&& value_ok(c.live, w)
        &&& c.live.is_boolean()
        &&& values_ok(c.then_stack@, w)
        &&& forall|i: int, j: int|
            0 <= i < j < c.writes@.len() ==> (#[trigger] c.writes@[i]).address != (
            #[trigger] c.writes@[j]).address
        &&& forall|i: int|
            0 <= i < c.writes@.len() ==> {
                &&& (#[trigger] c.writes@[i]).address < mem_len
                &&& value_ok(c.writes@[i].original, w)
                &&& match c.writes@[i].then_value {
                    Some(v) => value_ok(v, w),
                    None => true,
                }
            }
    }

    /// The machine invariant: the backend satisfies its own gates, every
    /// value anywhere is consistent with its witness, and the control stacks
    /// nest properly.
    pub open spec fn wf(self) -> bool {
        let w = self.backend.values@;
        &&& self.backend.wf()
        &&& values_ok(self.stack@, w)
        &&& values_ok(self.memory@, w)
        &&& match self.outputs {
            Some(v) => values_ok(v@, w),
            None => true,
        }
        &&& self.globals_end <= self.memory@.len()
        &&& forall|k: int|
            0 <= k < self.conditions@.len() ==> Self::cond_ok(
                #[trigger] self.conditions@[k],
                w,
                self.memory@.len() as int,
            )
        &&& forall|k: int|
            0 <= k < self.conditions@.len() ==> (#[trigger] self.conditions@[k]).stack_fork
                <= self.stack@.len()
        &&& forall|j: int, k: int|
            0 <= j <= k < self.conditions@.len() ==> (#[trigger] self.conditions@[j].stack_fork)
                <= (#[trigger] self.conditions@[k].stack_fork)
        &&& forall|k: int|
            0 <= k < self.conditions@.len() ==> (#[trigger] self.conditions@[k]).stack_fork
                >= self.frame_floor()
        &&& forall|i: int|
            0 <= i < self.frames@.len() ==> {
                &&& (#[trigger] self.frames@[i]).local_base <= self.memory@.len()
                &&& self.frames@[i].stack_height <= self.stack@.len()
                &&& self.frames@[i].local_base >= self.globals_end
            }
        &&& forall|i: int, j: int|
            0 <= i <= j < self.frames@.len() ==> (#[trigger] self.frames@[i].local_base)
                <= (#[trigger] self.frames@[j].local_base) && (
            #[trigger] self.frames@[i].stack_height) <= (#[trigger] self.frames@[j].stack_height)
    }

    /// Stack floor imposed by the current frame alone.
    pub open spec fn frame_floor(self) -> int {
        if self.frames@.len() > 0 {
            self.frames@.last().stack_height as int
        } else {
            0
        }
    }

    /// Everything but the evaluation stack and the backend is unchanged.
    pub open spec fn same_but_stack_backend(pre: VirtualMachine, post: VirtualMachine) -> bool {
        &&& post.program@ == pre.program@
        &&& post.pc == pre.pc
        &&& post.memory@ == pre.memory@
        &&& post.globals_end == pre.globals_end
        &&& post.frames@ == pre.frames@
        &&& post.conditions@ == pre.conditions@
        &&& post.loops@ == pre.loops@
        &&& post.outputs == pre.outputs
        &&& post.log@ == pre.log@
    }

    /// The backend only grew: old witnesses keep their concrete halves and
    /// old gates stay.
    pub open spec fn backend_grew(pre: VirtualMachine, post: VirtualMachine) -> bool {
        &&& pre.backend.values@.is_prefix_of(post.backend.values@)
        &&& pre.backend.gates@.is_prefix_of(post.backend.gates@)
    }

}


/// Nothing changed at all.
pub open spec fn unchanged_vm(pre: VirtualMachine, post: VirtualMachine) -> bool {
    &&& VirtualMachine::same_but_stack_backend(pre, post)
    &&& post.stack@ == pre.stack@
    &&& post.backend.values@ == pre.backend.values@
    &&& post.backend.gates@ == pre.backend.gates@
}

/// Only the top `k` values left the evaluation stack; all else is as it
/// was.
pub open spec fn consumed_only(pre: VirtualMachine, post: VirtualMachine, k: int) -> bool {
    &&& post.stack@ == pre.stack@.take(pre.stack@.len() - k)
    &&& post.backend.values@ == pre.backend.values@
    &&& post.backend.gates@ == pre.backend.gates@
    &&& VirtualMachine::same_but_stack_backend(pre, post)
}

/// Transition of popping a scaled index: the popped concrete index `ix`
/// must satisfy `(ix + 1) * scale <= bound`, and the result is
/// `address + ix * scale`, which must fit an address. Failures before the
/// pop leave the stack whole; failures after it leave the index consumed.
pub open spec fn rel_indexed_offset(
    pre: VirtualMachine,
    post: VirtualMachine,
    address: int,
    bound: int,
    scale: int,
    r: Result<usize, RuntimeError>,
) -> bool {
    let floor = pre.spec_stack_floor();
    let n = pre.stack@.len() as int;
    if n < floor + 1 {
        r == Err::<usize, RuntimeError>(RuntimeError::StackUnderflow) && unchanged_vm(pre, post)
    } else {
        match index_of(pre.stack@.last()) {
            None => r == Err::<usize, RuntimeError>(RuntimeError::ExpectedConstant)
                && unchanged_vm(pre, post),
            Some(ix) => if ix > usize::MAX {
                r == Err::<usize, RuntimeError>(RuntimeError::OutOfBounds) && unchanged_vm(
                    pre,
                    post,
                )
            } else if (ix + 1) * scale > bound {
                r == Err::<usize, RuntimeError>(RuntimeError::OutOfBounds) && consumed_only(
                    pre,
                    post,
                    1,
                )
            } else if address + ix * scale > usize::MAX {
                r == Err::<usize, RuntimeError>(RuntimeError::OutOfBounds) && consumed_only(
                    pre,
                    post,
                    1,
                )
            } else {
                r == Ok::<usize, RuntimeError>((address + ix * scale) as usize) && consumed_only(
                    pre,
                    post,
                    1,
                )
            },
        }
    }
}

/// A freshly allocated value of the given type.
pub open spec fn fresh_value(c: Option<i128>, w: int, is_signed: bool, bit_length: u8) -> Value {
    Value { concrete: c, witness: w as usize, bit_length, is_signed }
}

/// Transition of `Add` and `Sub`: both operands leave the stack, the exact
/// sum or difference of the same scalar type takes their place, and one
/// linear gate ties the fresh witness to the operands. Overflow of the
/// operand type is a fatal error, never a silent wrap.
pub open spec fn rel_arith_linear(
    pre: VirtualMachine,
    post: VirtualMachine,
    is_add: bool,
    r: Result<(), RuntimeError>,
) -> bool {
    let floor = pre.spec_stack_floor();
    let n = pre.stack@.len() as int;
    if n < floor + 2 {
        r == Err::<(), RuntimeError>(RuntimeError::StackUnderflow) && unchanged_vm(pre, post)
    } else {
        let b = pre.stack@[n - 1];
        let a = pre.stack@[n - 2];
        if !a.same_type(b) {
            r == Err::<(), RuntimeError>(RuntimeError::TypeMismatch) && unchanged_vm(pre, post)
        } else {
            let cr = match (a.concrete, b.concrete) {
                (Some(x), Some(y)) => Some(
                    (if is_add {
                        (x as int) + (y as int)
                    } else {
                        (x as int) - (y as int)
                    }) as i128,
                ),
                _ => None,
            };
            if cr is Some && !scalar_in_range(a.is_signed, a.bit_length, cr->0) {
                r == Err::<(), RuntimeError>(RuntimeError::Overflow) && unchanged_vm(pre, post)
            } else {
                let wr = pre.backend.values@.len() as int;
                let res = fresh_value(cr, wr, a.is_signed, a.bit_length);
                &&& r == Ok::<(), RuntimeError>(())
                &&& post.stack@ == pre.stack@.drop_last().drop_last().push(res)
                &&& post.backend.values@ == pre.backend.values@.push(cr)
                &&& post.backend.gates@ == pre.backend.gates@.push(
                    Gate::Linear {
                        ca: 1,
                        a: a.witness,
                        cb: if is_add {
                            1i128
                        } else {
                            -1i128
                        },
                        b: b.witness,
                        k: 0,
                        r: res.witness,
                    },
                )
                &&& VirtualMachine::same_but_stack_backend(pre, post)
            }
        }
    }
}

impl VirtualMachine {
    /// The stack floor, executable form.
    fn stack_floor(&self) -> (r: usize)
        ensures
            r as int == self.spec_stack_floor(),
    {
        if self.conditions.len() > 0 {
            self.conditions[self.conditions.len() - 1].stack_fork
        } else if self.frames.len() > 0 {
            self.frames[self.frames.len() - 1].stack_height
        } else {
            0
        }
    }

    /// Reads the two topmost operands without popping: `(a, b)` with `b` on
    /// top.
    fn peek_pair(&self) -> (r: Result<(Value, Value), RuntimeError>)
        ensures
            match r {
                Ok((a, b)) => self.stack@.len() >= self.spec_stack_floor() + 2 && a == self.stack@[
                    self.stack@.len() - 2
                ] && b == self.stack@.last(),
                Err(e) => e == RuntimeError::StackUnderflow && self.stack@.len()
                    < self.spec_stack_floor() + 2,
            },
    {
        let floor = self.stack_floor();
        if self.stack.len() < 2 || self.stack.len() - 2 < floor {
            return Err(RuntimeError::StackUnderflow);
        }
        let b = self.stack[self.stack.len() - 1];
        let a = self.stack[self.stack.len() - 2];
        Ok((a, b))
    }

    /// Drops the two topmost values and pushes a fresh result allocated from
    /// the backend, recording `gate` over it.
    fn replace_pair(&mut self, cr: Option<i128>, is_signed: bool, bit_length: u8, g: Gate) -> (res:
        Value)
        requires
            old(self).wf(),
            old(self).stack@.len() >= old(self).spec_stack_floor() + 2,
            crate::value::scalar_type_wf(is_signed, bit_length),
            match cr {
                Some(c) => scalar_in_range(is_signed, bit_length, c),
                None => true,
            },
            gate_in_bounds(g, old(self).backend.values@.len() as int + 1),
            gate_holds(g, old(self).backend.values@.push(cr)),
        ensures
            final(self).wf(),
            res == fresh_value(cr, old(self).backend.values@.len() as int, is_signed, bit_length),
            final(self).stack@ == old(self).stack@.drop_last().drop_last().push(res),
            final(self).backend.values@ == old(self).backend.values@.push(cr),
            final(self).backend.gates@ == old(self).backend.gates@.push(g),
            Self::same_but_stack_backend(*old(self), *final(self)),
    {
        let w = self.backend.allocate(cr);
        self.backend.push_gate(g);
        let res = Value { concrete: cr, witness: w, bit_length, is_signed };
        self.stack.pop();
        self.stack.pop();
        self.stack.push(res);
        proof {
            assert(final(self).stack@ =~= old(self).stack@.drop_last().drop_last().push(res));
            assert forall|i: int| 0 <= i < self.stack@.len() implies value_ok(
                #[trigger] self.stack@[i],
                self.backend.values@,
            ) by {
                if i < self.stack@.len() - 1 {
                    assert(self.stack@[i] == old(self).stack@[i]);
                    assert(value_ok(old(self).stack@[i], old(self).backend.values@));
                }
            }
            assert(final(self).wf()) by {
                lemma_values_ok_grow(old(self).memory@, old(self).backend.values@, cr);
                lemma_vm_aux_grow(*old(self), *final(self), cr);
            }
        }
        res
    }

    /// Executes `Add` or `Sub`.
    fn exec_arith_linear(&mut self, is_add: bool) -> (r: Result<(), RuntimeError>)
        requires
            old(self).wf(),
        ensures
            final(self).wf(),
            rel_arith_linear(*old(self), *final(self), is_add, r),
    {
        let (a, b) = match self.peek_pair() {
            Ok(p) => p,
            Err(e) => {
                return Err(e);
            },
        };
        if !(a.bit_length == b.bit_length && a.is_signed == b.is_signed) {
            return Err(RuntimeError::TypeMismatch);
        }
        proof {
            let n = self.stack@.len() as int;
            assert(value_ok(self.stack@[n - 2], self.backend.values@));
            assert(value_ok(self.stack@[n - 1], self.backend.values@));
            crate::value::lemma_value_bound(a);
            crate::value::lemma_value_bound(b);
        }
        let cr: Option<i128> = match (a.concrete, b.concrete) {
            (Some(x), Some(y)) => Some(
                if is_add {
                    x + y
                } else {
                    x - y
                },
            ),
            _ => None,
        };
        if let Some(c) = cr {
            if !crate::value::check_scalar_range(a.is_signed, a.bit_length, c) {
                return Err(RuntimeError::Overflow);
            }
        }
        let g = Gate::Linear {
            ca: 1,
            a: a.witness,
            cb: if is_add {
                1
            } else {
                -1
            },
            b: b.witness,
            k: 0,
            r: self.backend.values.len(),
        };
        proof {
            let n = self.stack@.len() as int;
            assert(value_ok(self.stack@[n - 2], self.backend.values@));
            assert(value_ok(self.stack@[n - 1], self.backend.values@));
            let w0 = self.backend.values@;
            let w2 = w0.push(cr);
            assert(w2[a.witness as int] == a.concrete);
            assert(w2[b.witness as int] == b.concrete);
            assert(w2[w0.len() as int] == cr);
            if is_add {
                assert(g.arrow_Linear_ca() == 1 && g.arrow_Linear_cb() == 1);
            } else {
                assert(g.arrow_Linear_ca() == 1 && g.arrow_Linear_cb() == -1);
            }
            assert(gate_holds(g, w2));
        }
        self.replace_pair(cr, a.is_signed, a.bit_length, g);
        Ok(())
    }
}

/// Growing the witness table keeps every value in a region consistent.
pub proof fn lemma_values_ok_grow(s: Seq<Value>, w: Seq<Option<i128>>, c: Option<i128>)
    requires
        values_ok(s, w),
    ensures
        values_ok(s, w.push(c)),
{
    assert forall|i: int| 0 <= i < s.len() implies value_ok(#[trigger] s[i], w.push(c)) by {
        assert(value_ok(s[i], w));
    }
}

/// Growing the witness table keeps the machine's auxiliary regions (memory,
/// outputs, condition frames) consistent; the stack is the caller's charge.
pub proof fn lemma_vm_aux_grow(pre: VirtualMachine, post: VirtualMachine, c: Option<i128>)
    requires
        pre.wf(),
        VirtualMachine::same_but_stack_backend(pre, post),
        post.backend.values@ == pre.backend.values@.push(c),
        values_ok(post.stack@, post.backend.values@),
        post.backend.wf(),
        post.stack@.len() >= post.spec_stack_floor(),
        forall|k: int|
            0 <= k < post.conditions@.len() ==> (#[trigger] post.conditions@[k]).stack_fork
                <= post.stack@.len(),
        forall|i: int|
            0 <= i < post.frames@.len() ==> (#[trigger] post.frames@[i]).stack_height
                <= post.stack@.len(),
    ensures
        post.wf(),
{
    let w2 = post.backend.values@;
    lemma_values_ok_grow(pre.memory@, pre.backend.values@, c);
    match pre.outputs {
        Some(v) => lemma_values_ok_grow(v@, pre.backend.values@, c),
        None => {},
    }
    assert forall|k: int| 0 <= k < post.conditions@.len() implies VirtualMachine::cond_ok(
        #[trigger] post.conditions@[k],
        w2,
        post.memory@.len() as int,
    ) by {
        let cf = post.conditions@[k];
        assert(VirtualMachine::cond_ok(cf, pre.backend.values@, pre.memory@.len() as int));
        assert(value_ok(cf.selector, pre.backend.values@));
        lemma_values_ok_grow(cf.then_stack@, pre.backend.values@, c);
        assert forall|i: int| 0 <= i < cf.writes@.len() implies {
            &&& (#[trigger] cf.writes@[i]).address < post.memory@.len()
            &&& value_ok(cf.writes@[i].original, w2)
            &&& match cf.writes@[i].then_value {
                Some(v) => value_ok(v, w2),
                None => true,
            }
        } by {
            assert(cf.writes@[i].address < pre.memory@.len());
            assert(value_ok(cf.writes@[i].original, pre.backend.values@));
            match cf.writes@[i].then_value {
                Some(v) => {
                    assert(value_ok(v, pre.backend.values@));
                },
                None => {},
            }
        }
    }
}


/// Euclidean quotient and remainder, executable form.
#[verifier::rlimit(60)]
fn euclid_divmod(a: i128, b: i128) -> (r: (i128, i128))
    requires
        b != 0,
        -0x8000000000000000 <= a < 0x8000000000000000,
        -0x8000000000000000 <= b < 0x8000000000000000,
    ensures
        r.0 as int == crate::backend::euclid_div(a as int, b as int),
        r.1 as int == crate::backend::euclid_mod(a as int, b as int),
        0 <= r.1,
{
    let bp: i128 = if b < 0 { -b } else { b };
    let am: u128 = if a < 0 { (-a) as u128 } else { a as u128 };
    let q0: u128 = am / (bp as u128);
    let r0: u128 = am % (bp as u128);
    proof {
        vstd::arithmetic::div_mod::lemma_fundamental_div_mod(am as int, bp as int);
        vstd::arithmetic::div_mod::lemma_mod_bound(am as int, bp as int);
        assert(q0 as int == (am as int) / (bp as int));
        assert(am as int == (bp as int) * (q0 as int) + (r0 as int));
        assert(q0 <= am) by {
            vstd::arithmetic::div_mod::lemma_div_is_ordered_by_denominator(am as int, 1, bp as int);
            vstd::arithmetic::div_mod::lemma_div_basics_1(am as int);
        }
    }
    let (q_pos, rr): (i128, i128) = if a >= 0 {
        (q0 as i128, r0 as i128)
    } else {
        if r0 == 0 {
            (-(q0 as i128), 0)
        } else {
            (-(q0 as i128) - 1, bp - (r0 as i128))
        }
    };
    proof {
        assert(a as int == (bp as int) * (q_pos as int) + (rr as int) && 0 <= rr < bp) by (
        nonlinear_arith)
            requires
                am as int == (bp as int) * (q0 as int) + (r0 as int),
                0 <= r0 < bp,
                (a >= 0 ==> am == a && q_pos == q0 && rr == r0),
                (a < 0 ==> am as int == -(a as int) && (r0 == 0 ==> q_pos as int == -(q0 as int)
                    && rr == 0) && (r0 != 0 ==> q_pos as int == -(q0 as int) - 1 && rr as int == (
                bp as int) - (r0 as int))),
        ;
        assert((bp as int) * (q_pos as int) == (q_pos as int) * (bp as int)) by (nonlinear_arith);
        vstd::arithmetic::div_mod::lemma_fundamental_div_mod_converse(
            a as int,
            bp as int,
            q_pos as int,
            rr as int,
        );
        assert(q_pos as int == (a as int) / (bp as int));
        assert(rr as int == (a as int) % (bp as int));
    }
    if b < 0 {
        (-q_pos, rr)
    } else {
        (q_pos, rr)
    }
}

/// The operation demands single-bit operands.
pub open spec fn op_needs_bool(op: GateOp) -> bool {
    op is And || op is Or || op is Xor
}

/// The operation produces a single-bit result.
pub open spec fn op_gives_bool(op: GateOp) -> bool {
    !(op is Mul || op is Div || op is Rem)
}

/// The operation divides, so its divisor must be provably non-zero.
pub open spec fn op_div_like(op: GateOp) -> bool {
    op is Div || op is Rem
}

/// Transition of every two-operand gate operation (multiplication, Euclidean
/// division and remainder, the six comparisons, and the three boolean
/// connectives): the operands leave the stack, the exact result of
/// `gate_op_value` takes their place under its derived scalar type, and a
/// binary gate (preceded, for division, by a non-zero gate on the divisor)
/// ties the fresh witness to the operands.
pub open spec fn rel_binary_gate(
    pre: VirtualMachine,
    post: VirtualMachine,
    op: GateOp,
    r: Result<(), RuntimeError>,
) -> bool {
    let floor = pre.spec_stack_floor();
    let n = pre.stack@.len() as int;
    if n < floor + 2 {
        r == Err::<(), RuntimeError>(RuntimeError::StackUnderflow) && unchanged_vm(pre, post)
    } else {
        let b = pre.stack@[n - 1];
        let a = pre.stack@[n - 2];
        if !a.same_type(b) || (op_needs_bool(op) && !a.is_boolean()) {
            r == Err::<(), RuntimeError>(RuntimeError::TypeMismatch) && unchanged_vm(pre, post)
        } else if op_div_like(op) && b.concrete == Some(0i128) {
            r == Err::<(), RuntimeError>(RuntimeError::DivisionByZero) && unchanged_vm(pre, post)
        } else {
            let rs = if op_gives_bool(op) {
                false
            } else {
                a.is_signed
            };
            let rb = if op_gives_bool(op) {
                BOOLEAN_BIT_LENGTH
            } else {
                a.bit_length
            };
            let cr = match (a.concrete, b.concrete) {
                (Some(x), Some(y)) => crate::backend::gate_op_value(op, x, y),
                _ => None,
            };
            if cr is Some && !scalar_in_range(rs, rb, cr->0) {
                r == Err::<(), RuntimeError>(RuntimeError::Overflow) && unchanged_vm(pre, post)
            } else {
                let wr = pre.backend.values@.len() as int;
                let res = fresh_value(cr, wr, rs, rb);
                let base_gates = if op_div_like(op) {
                    pre.backend.gates@.push(Gate::NonZero { x: b.witness })
                } else {
                    pre.backend.gates@
                };
                &&& r == Ok::<(), RuntimeError>(())
                &&& post.stack@ == pre.stack@.drop_last().drop_last().push(res)
                &&& post.backend.values@ == pre.backend.values@.push(cr)
                &&& post.backend.gates@ == base_gates.push(
                    Gate::Binary { op, a: a.witness, b: b.witness, r: res.witness },
                )
                &&& VirtualMachine::same_but_stack_backend(pre, post)
            }
        }
    }
}

impl VirtualMachine {
    /// Executes one two-operand gate operation.
    pub fn exec_binary_gate(&mut self, op: GateOp) -> (r: Result<(), RuntimeError>)
        requires
            old(self).wf(),
        ensures
            final(self).wf(),
            rel_binary_gate(*old(self), *final(self), op, r),
    {
        let (a, b) = match self.peek_pair() {
            Ok(p) => p,
            Err(e) => {
                return Err(e);
            },
        };
        let needs_bool = match op {
            GateOp::And | GateOp::Or | GateOp::Xor => true,
            _ => false,
        };
        let gives_bool = match op {
            GateOp::Mul | GateOp::Div | GateOp::Rem => false,
            _ => true,
        };
        let div_like = match op {
            GateOp::Div | GateOp::Rem => true,
            _ => false,
        };
        if !(a.bit_length == b.bit_length && a.is_signed == b.is_signed) || (needs_bool && !(
        a.bit_length == 1 && !a.is_signed)) {
            return Err(RuntimeError::TypeMismatch);
        }
        if div_like && b.concrete.is_some() && b.concrete.unwrap() == 0 {
            return Err(RuntimeError::DivisionByZero);
        }
        let rs = if gives_bool {
            false
        } else {
            a.is_signed
        };
        let rb = if gives_bool {
            BOOLEAN_BIT_LENGTH
        } else {
            a.bit_length
        };
        proof {
            let n = self.stack@.len() as int;
            assert(value_ok(self.stack@[n - 2], self.backend.values@));
            assert(value_ok(self.stack@[n - 1], self.backend.values@));
            crate::value::lemma_value_bound(a);
            crate::value::lemma_value_bound(b);
        }
        let cr: Option<i128> = match (a.concrete, b.concrete) {
            (Some(x), Some(y)) => match op {
                GateOp::Mul => {
                    proof {
                        assert((-0x40000000000000000000000000000000 <= (x as int) * (y as int)
                            <= 0x40000000000000000000000000000000)) by (nonlinear_arith)
                            requires
                                -0x8000000000000000 <= x < 0x8000000000000000,
                                -0x8000000000000000 <= y < 0x8000000000000000,
                        ;
                    }
                    Some(x * y)
                },
                GateOp::Div => Some(euclid_divmod(x, y).0),
                GateOp::Rem => Some(euclid_divmod(x, y).1),
                GateOp::And => Some(
                    if x != 0 && y != 0 {
                        1
                    } else {
                        0
                    },
                ),
                GateOp::Or => Some(
                    if x != 0 || y != 0 {
                        1
                    } else {
                        0
                    },
                ),
                GateOp::Xor => Some(
                    if (x != 0) != (y != 0) {
                        1
                    } else {
                        0
                    },
                ),
                GateOp::Lt => Some(
                    if x < y {
                        1
                    } else {
                        0
                    },
                ),
                GateOp::Le => Some(
                    if x <= y {
                        1
                    } else {
                        0
                    },
                ),
                GateOp::Eq => Some(
                    if x == y {
                        1
                    } else {
                        0
                    },
                ),
                GateOp::Ne => Some(
                    if x != y {
                        1
                    } else {
                        0
                    },
                ),
                GateOp::Ge => Some(
                    if x >= y {
                        1
                    } else {
                        0
                    },
                ),
                GateOp::Gt => Some(
                    if x > y {
                        1
                    } else {
                        0
                    },
                ),
            },
            _ => None,
        };
        if let Some(c) = cr {
            if !crate::value::check_scalar_range(rs, rb, c) {
                return Err(RuntimeError::Overflow);
            }
        }
        if div_like {
            proof {
                assert(gate_holds(Gate::NonZero { x: b.witness }, self.backend.values@));
            }
            self.backend.push_gate(Gate::NonZero { x: b.witness });
        }
        let g = Gate::Binary { op, a: a.witness, b: b.witness, r: self.backend.values.len() };
        proof {
            assert(gate_holds(g, self.backend.values@.push(cr)));
        }
        self.replace_pair(cr, rs, rb, g);
        Ok(())
    }
}


/// Transition of `Not`: the single-bit operand is replaced by its negation,
/// tied by the linear gate `r == 1 - x`.
pub open spec fn rel_not(
    pre: VirtualMachine,
    post: VirtualMachine,
    r: Result<(), RuntimeError>,
) -> bool {
    let floor = pre.spec_stack_floor();
    let n = pre.stack@.len() as int;
    if n < floor + 1 {
        r == Err::<(), RuntimeError>(RuntimeError::StackUnderflow) && unchanged_vm(pre, post)
    } else {
        let a = pre.stack@[n - 1];
        if !a.is_boolean() {
            r == Err::<(), RuntimeError>(RuntimeError::TypeMismatch) && unchanged_vm(pre, post)
        } else {
            let cr = match a.concrete {
                Some(x) => Some(
                    if x == 0 {
                        1i128
                    } else {
                        0i128
                    },
                ),
                None => None,
            };
            let res = fresh_value(cr, pre.backend.values@.len() as int, false, BOOLEAN_BIT_LENGTH);
            &&& r == Ok::<(), RuntimeError>(())
            &&& post.stack@ == pre.stack@.drop_last().push(res)
            &&& post.backend.values@ == pre.backend.values@.push(cr)
            &&& post.backend.gates@ == pre.backend.gates@.push(
                Gate::Linear { ca: -1i128, a: a.witness, cb: 0, b: a.witness, k: 1, r: res.witness },
            )
            &&& VirtualMachine::same_but_stack_backend(pre, post)
        }
    }
}

/// Transition of `Neg`: the operand is replaced by its exact negation under
/// the signed type of the same width, tied by the linear gate `r == -x`.
/// Negating a boolean is a type error; a negation that leaves the signed
/// range is an overflow.
pub open spec fn rel_neg(
    pre: VirtualMachine,
    post: VirtualMachine,
    r: Result<(), RuntimeError>,
) -> bool {
    let floor = pre.spec_stack_floor();
    let n = pre.stack@.len() as int;
    if n < floor + 1 {
        r == Err::<(), RuntimeError>(RuntimeError::StackUnderflow) && unchanged_vm(pre, post)
    } else {
        let a = pre.stack@[n - 1];
        if a.bit_length == BOOLEAN_BIT_LENGTH {
            r == Err::<(), RuntimeError>(RuntimeError::TypeMismatch) && unchanged_vm(pre, post)
        } else {
            let cr = match a.concrete {
                Some(x) => Some((-(x as int)) as i128),
                None => None,
            };
            if cr is Some && !scalar_in_range(true, a.bit_length, cr->0) {
                r == Err::<(), RuntimeError>(RuntimeError::Overflow) && unchanged_vm(pre, post)
            } else {
                let res = fresh_value(cr, pre.backend.values@.len() as int, true, a.bit_length);
                &&& r == Ok::<(), RuntimeError>(())
                &&& post.stack@ == pre.stack@.drop_last().push(res)
                &&& post.backend.values@ == pre.backend.values@.push(cr)
                &&& post.backend.gates@ == pre.backend.gates@.push(
                    Gate::Linear {
                        ca: -1i128,
                        a: a.witness,
                        cb: 0,
                        b: a.witness,
                        k: 0,
                        r: res.witness,
                    },
                )
                &&& VirtualMachine::same_but_stack_backend(pre, post)
            }
        }
    }
}

/// Transition of `Cast`: only the metadata changes and the witness is kept;
/// a range gate pins the value into the target type, and a concrete value
/// outside it is an overflow.
pub open spec fn rel_cast(
    pre: VirtualMachine,
    post: VirtualMachine,
    is_signed: bool,
    bit_length: u8,
    r: Result<(), RuntimeError>,
) -> bool {
    let floor = pre.spec_stack_floor();
    let n = pre.stack@.len() as int;
    if n < floor + 1 {
        r == Err::<(), RuntimeError>(RuntimeError::StackUnderflow) && unchanged_vm(pre, post)
    } else {
        let a = pre.stack@[n - 1];
        if a.concrete is Some && !scalar_in_range(is_signed, bit_length, a.concrete->0) {
            r == Err::<(), RuntimeError>(RuntimeError::Overflow) && unchanged_vm(pre, post)
        } else {
            let res = Value { concrete: a.concrete, witness: a.witness, bit_length, is_signed };
            &&& r == Ok::<(), RuntimeError>(())
            &&& post.stack@ == pre.stack@.drop_last().push(res)
            &&& post.backend.values@ == pre.backend.values@
            &&& post.backend.gates@ == pre.backend.gates@.push(
                Gate::Range { x: a.witness, is_signed, bit_length },
            )
            &&& VirtualMachine::same_but_stack_backend(pre, post)
        }
    }
}

/// Transition of `PushConst`: a fresh witness carrying the constant is
/// pushed; constants need no gate.
pub open spec fn rel_push_const(
    pre: VirtualMachine,
    post: VirtualMachine,
    value: i128,
    is_signed: bool,
    bit_length: u8,
    r: Result<(), RuntimeError>,
) -> bool {
    let res = fresh_value(Some(value), pre.backend.values@.len() as int, is_signed, bit_length);
    &&& r == Ok::<(), RuntimeError>(())
    &&& post.stack@ == pre.stack@.push(res)
    &&& post.backend.values@ == pre.backend.values@.push(Some(value))
    &&& post.backend.gates@ == pre.backend.gates@
    &&& VirtualMachine::same_but_stack_backend(pre, post)
}

/// Transition of `Pop`: the top `count` values leave the stack.
pub open spec fn rel_pop(
    pre: VirtualMachine,
    post: VirtualMachine,
    count: usize,
    r: Result<(), RuntimeError>,
) -> bool {
    let floor = pre.spec_stack_floor();
    let n = pre.stack@.len() as int;
    if n < floor + count {
        r == Err::<(), RuntimeError>(RuntimeError::StackUnderflow) && unchanged_vm(pre, post)
    } else {
        &&& r == Ok::<(), RuntimeError>(())
        &&& post.stack@ == pre.stack@.take(n - count)
        &&& post.backend.values@ == pre.backend.values@
        &&& post.backend.gates@ == pre.backend.gates@
        &&& VirtualMachine::same_but_stack_backend(pre, post)
    }
}

/// Transition of `Swap`: the two topmost values change places.
pub open spec fn rel_swap(
    pre: VirtualMachine,
    post: VirtualMachine,
    r: Result<(), RuntimeError>,
) -> bool {
    let floor = pre.spec_stack_floor();
    let n = pre.stack@.len() as int;
    if n < floor + 2 {
        r == Err::<(), RuntimeError>(RuntimeError::StackUnderflow) && unchanged_vm(pre, post)
    } else {
        &&& r == Ok::<(), RuntimeError>(())
        &&& post.stack@ == pre.stack@.update(n - 1, pre.stack@[n - 2]).update(
            n - 2,
            pre.stack@[n - 1],
        )
        &&& post.backend.values@ == pre.backend.values@
        &&& post.backend.gates@ == pre.backend.gates@
        &&& VirtualMachine::same_but_stack_backend(pre, post)
    }
}

impl VirtualMachine {
    /// Pops one operand and pushes a fresh result allocated from the
    /// backend, recording `gate` over it.
    fn replace_single(&mut self, cr: Option<i128>, is_signed: bool, bit_length: u8, g: Gate) -> (
        res: Value)
        requires
            old(self).wf(),
            old(self).stack@.len() >= old(self).spec_stack_floor() + 1,
            crate::value::scalar_type_wf(is_signed, bit_length),
            match cr {
                Some(c) => scalar_in_range(is_signed, bit_length, c),
                None => true,
            },
            gate_in_bounds(g, old(self).backend.values@.len() as int + 1),
            gate_holds(g, old(self).backend.values@.push(cr)),
        ensures
            final(self).wf(),
            res == fresh_value(cr, old(self).backend.values@.len() as int, is_signed, bit_length),
            final(self).stack@ == old(self).stack@.drop_last().push(res),
            final(self).backend.values@ == old(self).backend.values@.push(cr),
            final(self).backend.gates@ == old(self).backend.gates@.push(g),
            Self::same_but_stack_backend(*old(self), *final(self)),
    {
        let w = self.backend.allocate(cr);
        self.backend.push_gate(g);
        let res = Value { concrete: cr, witness: w, bit_length, is_signed };
        self.stack.pop();
        self.stack.push(res);
        proof {
            assert(final(self).stack@ =~= old(self).stack@.drop_last().push(res));
            assert forall|i: int| 0 <= i < self.stack@.len() implies value_ok(
                #[trigger] self.stack@[i],
                self.backend.values@,
            ) by {
                if i < self.stack@.len() - 1 {
                    assert(self.stack@[i] == old(self).stack@[i]);
                    assert(value_ok(old(self).stack@[i], old(self).backend.values@));
                }
            }
            assert(final(self).wf()) by {
                lemma_values_ok_grow(old(self).memory@, old(self).backend.values@, cr);
                lemma_vm_aux_grow(*old(self), *final(self), cr);
            }
        }
        res
    }

    /// Executes `Not`.
    pub fn exec_not(&mut self) -> (r: Result<(), RuntimeError>)
        requires
            old(self).wf(),
        ensures
            final(self).wf(),
            rel_not(*old(self), *final(self), r),
    {
        let floor = self.stack_floor();
        if self.stack.len() < 1 || self.stack.len() - 1 < floor {
            return Err(RuntimeError::StackUnderflow);
        }
        let a = self.stack[self.stack.len() - 1];
        if !(a.bit_length == 1 && !a.is_signed) {
            return Err(RuntimeError::TypeMismatch);
        }
        proof {
            assert(value_ok(self.stack@[self.stack@.len() - 1], self.backend.values@));
        }
        let cr: Option<i128> = match a.concrete {
            Some(x) => Some(
                if x == 0 {
                    1
                } else {
                    0
                },
            ),
            None => None,
        };
        let g = Gate::Linear {
            ca: -1,
            a: a.witness,
            cb: 0,
            b: a.witness,
            k: 1,
            r: self.backend.values.len(),
        };
        proof {
            vstd::arithmetic::power2::lemma2_to64();
            assert(g.arrow_Linear_ca() == -1 && g.arrow_Linear_cb() == 0);
            assert(gate_holds(g, self.backend.values@.push(cr)));
        }
        self.replace_single(cr, false, 1, g);
        Ok(())
    }

    /// Executes `Neg`.
    pub fn exec_neg(&mut self) -> (r: Result<(), RuntimeError>)
        requires
            old(self).wf(),
        ensures
            final(self).wf(),
            rel_neg(*old(self), *final(self), r),
    {
        let floor = self.stack_floor();
        if self.stack.len() < 1 || self.stack.len() - 1 < floor {
            return Err(RuntimeError::StackUnderflow);
        }
        let a = self.stack[self.stack.len() - 1];
        if a.bit_length == 1 {
            return Err(RuntimeError::TypeMismatch);
        }
        proof {
            assert(value_ok(self.stack@[self.stack@.len() - 1], self.backend.values@));
            crate::value::lemma_value_bound(a);
        }
        let cr: Option<i128> = match a.concrete {
            Some(x) => Some(-x),
            None => None,
        };
        if let Some(c) = cr {
            if !crate::value::check_scalar_range(true, a.bit_length, c) {
                return Err(RuntimeError::Overflow);
            }
        }
        let g = Gate::Linear {
            ca: -1,
            a: a.witness,
            cb: 0,
            b: a.witness,
            k: 0,
            r: self.backend.values.len(),
        };
        proof {
            assert(g.arrow_Linear_ca() == -1 && g.arrow_Linear_cb() == 0);
            assert(gate_holds(g, self.backend.values@.push(cr)));
        }
        self.replace_single(cr, true, a.bit_length, g);
        Ok(())
    }

    /// Executes `Cast`.
    pub fn exec_cast(&mut self, is_signed: bool, bit_length: u8) -> (r: Result<(), RuntimeError>)
        requires
            old(self).wf(),
            crate::value::scalar_type_wf(is_signed, bit_length),
        ensures
            final(self).wf(),
            rel_cast(*old(self), *final(self), is_signed, bit_length, r),
    {
        let floor = self.stack_floor();
        if self.stack.len() < 1 || self.stack.len() - 1 < floor {
            return Err(RuntimeError::StackUnderflow);
        }
        let a = self.stack[self.stack.len() - 1];
        proof {
            assert(value_ok(self.stack@[self.stack@.len() - 1], self.backend.values@));
        }
        if let Some(c) = a.concrete {
            if !crate::value::check_scalar_range(is_signed, bit_length, c) {
                return Err(RuntimeError::Overflow);
            }
        }
        let res = Value { concrete: a.concrete, witness: a.witness, bit_length, is_signed };
        let g = Gate::Range { x: a.witness, is_signed, bit_length };
        proof {
            assert(gate_holds(g, self.backend.values@));
        }
        self.backend.push_gate(g);
        self.stack.pop();
        self.stack.push(res);
        proof {
            assert(final(self).stack@ =~= old(self).stack@.drop_last().push(res));
            assert forall|i: int| 0 <= i < self.stack@.len() implies value_ok(
                #[trigger] self.stack@[i],
                self.backend.values@,
            ) by {
                if i < self.stack@.len() - 1 {
                    assert(self.stack@[i] == old(self).stack@[i]);
                }
                assert(value_ok(old(self).stack@[self.stack@.len() - 1], self.backend.values@));
            }
        }
        Ok(())
    }

    /// Executes `PushConst`.
    pub fn exec_push_const(&mut self, value: i128, is_signed: bool, bit_length: u8) -> (r: Result<
        (),
        RuntimeError,
    >)
        requires
            old(self).wf(),
            crate::value::scalar_type_wf(is_signed, bit_length),
            scalar_in_range(is_signed, bit_length, value),
        ensures
            final(self).wf(),
            rel_push_const(*old(self), *final(self), value, is_signed, bit_length, r),
    {
        let w = self.backend.allocate(Some(value));
        let res = Value { concrete: Some(value), witness: w, bit_length, is_signed };
        self.stack.push(res);
        proof {
            lemma_values_ok_grow(old(self).stack@, old(self).backend.values@, Some(value));
            assert(final(self).wf()) by {
                lemma_values_ok_grow(old(self).memory@, old(self).backend.values@, Some(value));
                lemma_vm_aux_grow(*old(self), *final(self), Some(value));
            }
        }
        Ok(())
    }

    /// Executes `Pop`.
    pub fn exec_pop(&mut self, count: usize) -> (r: Result<(), RuntimeError>)
        requires
            old(self).wf(),
        ensures
            final(self).wf(),
            rel_pop(*old(self), *final(self), count, r),
    {
        let floor = self.stack_floor();
        if self.stack.len() < count || self.stack.len() - count < floor {
            return Err(RuntimeError::StackUnderflow);
        }
        let target = self.stack.len() - count;
        self.stack.truncate(target);
        proof {
            assert forall|i: int| 0 <= i < self.stack@.len() implies value_ok(
                #[trigger] self.stack@[i],
                self.backend.values@,
            ) by {
                assert(self.stack@[i] == old(self).stack@[i]);
            }
        }
        Ok(())
    }

    /// Executes `Swap`.
    pub fn exec_swap(&mut self) -> (r: Result<(), RuntimeError>)
        requires
            old(self).wf(),
        ensures
            final(self).wf(),
            rel_swap(*old(self), *final(self), r),
    {
        let (a, b) = match self.peek_pair() {
            Ok(p) => p,
            Err(e) => {
                return Err(e);
            },
        };
        let n = self.stack.len();
        self.stack.set(n - 1, a);
        self.stack.set(n - 2, b);
        proof {
            assert forall|i: int| 0 <= i < self.stack@.len() implies value_ok(
                #[trigger] self.stack@[i],
                self.backend.values@,
            ) by {
                if i < n - 2 {
                    assert(self.stack@[i] == old(self).stack@[i]);
                } else {
                    assert(value_ok(old(self).stack@[n - 1], old(self).backend.values@));
                    assert(value_ok(old(self).stack@[n - 2], old(self).backend.values@));
                }
            }
        }
        Ok(())
    }
}


/// Transition of an absolute load of `count` cells at `abs`: the cells are
/// pushed lowest address first, so the highest address ends on top; any
/// access past the allocated region is an out-of-bounds error.
pub open spec fn rel_load_abs(
    pre: VirtualMachine,
    post: VirtualMachine,
    abs: int,
    count: int,
    r: Result<(), RuntimeError>,
) -> bool {
    if abs + count > pre.memory@.len() {
        r == Err::<(), RuntimeError>(RuntimeError::OutOfBounds) && unchanged_vm(pre, post)
    } else {
        &&& r == Ok::<(), RuntimeError>(())
        &&& post.stack@ == pre.stack@ + pre.memory@.subrange(abs, abs + count)
        &&& post.backend.values@ == pre.backend.values@
        &&& post.backend.gates@ == pre.backend.gates@
        &&& VirtualMachine::same_but_stack_backend(pre, post)
    }
}

/// Everything but the evaluation stack, the data stack and the condition
/// stack is unchanged.
pub open spec fn same_but_stack_memory_conds(pre: VirtualMachine, post: VirtualMachine) -> bool {
    &&& post.program@ == pre.program@
    &&& post.pc == pre.pc
    &&& post.globals_end == pre.globals_end
    &&& post.frames@ == pre.frames@
    &&& post.loops@ == pre.loops@
    &&& post.outputs == pre.outputs
    &&& post.log@ == pre.log@
    &&& post.backend.values@ == pre.backend.values@
    &&& post.backend.gates@ == pre.backend.gates@
}

/// The condition stack after a store: all frames unchanged, except that the
/// innermost may have recorded the first write to `abs` (keeping the value
/// the cell held before the store).
pub open spec fn conds_after_store(
    pre: VirtualMachine,
    post: VirtualMachine,
    abs: int,
) -> bool {
    let n = pre.conditions@.len() as int;
    if n == 0 {
        post.conditions@ == pre.conditions@
    } else {
        let c0 = pre.conditions@[n - 1];
        let c1 = post.conditions@[n - 1];
        &&& post.conditions@.len() == n
        &&& forall|k: int| 0 <= k < n - 1 ==> post.conditions@[k] == pre.conditions@[k]
        &&& c1.selector == c0.selector
        &&& c1.live == c0.live
        &&& c1.in_else == c0.in_else
        &&& c1.stack_fork == c0.stack_fork
        &&& c1.then_stack@ == c0.then_stack@
        &&& if exists|i: int| 0 <= i < c0.writes@.len() && (#[trigger] c0.writes@[i]).address
            == abs {
            c1.writes@ == c0.writes@
        } else {
            c1.writes@ == c0.writes@.push(
                BranchWrite {
                    address: abs as usize,
                    original: pre.memory@[abs],
                    then_value: None,
                },
            )
        }
    }
}

/// Transition of an absolute scalar store at `abs`: the top of the stack
/// moves into the cell. The catalogue has no allocation instruction, and the
/// data region is growable, so a store at exactly the region's end — and
/// nowhere past it — is the allocation rule: outside every conditional it
/// appends one cell. Any farther address is fatal, never silently bridged.
/// Inside a conditional only existing cells may be written, and the first
/// write to a cell records its prior value for the merge at `EndIf`.
pub open spec fn rel_store_abs(
    pre: VirtualMachine,
    post: VirtualMachine,
    abs: int,
    r: Result<(), RuntimeError>,
) -> bool {
    let floor = pre.spec_stack_floor();
    let n = pre.stack@.len() as int;
    let in_cond = pre.conditions@.len() > 0;
    if n < floor + 1 {
        r == Err::<(), RuntimeError>(RuntimeError::StackUnderflow) && unchanged_vm(pre, post)
    } else if abs > pre.memory@.len() || (in_cond && abs == pre.memory@.len()) {
        r == Err::<(), RuntimeError>(RuntimeError::OutOfBounds) && unchanged_vm(pre, post)
    } else {
        let v = pre.stack@.last();
        &&& r == Ok::<(), RuntimeError>(())
        &&& post.stack@ == pre.stack@.drop_last()
        &&& post.memory@ == if abs == pre.memory@.len() {
            pre.memory@.push(v)
        } else {
            pre.memory@.update(abs, v)
        }
        &&& conds_after_store(pre, post, abs)
        &&& same_but_stack_memory_conds(pre, post)
    }
}

/// Transition of an absolute sequence store of `count` cells at `abs`: the
/// top `count` values move into the cells so that the deepest value lands at
/// the lowest address (the exact inverse of a sequence load). The region
/// must already be allocated, and no part of a sequence store may happen
/// under an open conditional.
pub open spec fn rel_store_seq_abs(
    pre: VirtualMachine,
    post: VirtualMachine,
    abs: int,
    count: int,
    r: Result<(), RuntimeError>,
) -> bool {
    let floor = pre.spec_stack_floor();
    let n = pre.stack@.len() as int;
    if pre.conditions@.len() > 0 {
        r == Err::<(), RuntimeError>(RuntimeError::UnbalancedConditions) && unchanged_vm(pre, post)
    } else if n < floor + count {
        r == Err::<(), RuntimeError>(RuntimeError::StackUnderflow) && unchanged_vm(pre, post)
    } else if abs + count > pre.memory@.len() {
        r == Err::<(), RuntimeError>(RuntimeError::OutOfBounds) && unchanged_vm(pre, post)
    } else {
        &&& r == Ok::<(), RuntimeError>(())
        &&& post.stack@ == pre.stack@.take(n - count)
        &&& post.memory@.len() == pre.memory@.len()
        &&& forall|j: int|
            0 <= j < pre.memory@.len() ==> #[trigger] post.memory@[j] == if abs <= j < abs
                + count {
                pre.stack@[n - count + (j - abs)]
            } else {
                pre.memory@[j]
            }
        &&& post.conditions@ == pre.conditions@
        &&& same_but_stack_memory_conds(pre, post)
    }
}

impl VirtualMachine {
    /// The current frame's local base, executable form.
    fn local_base(&self) -> (r: usize)
        ensures
            r as int == self.spec_local_base(),
    {
        if self.frames.len() == 0 {
            self.globals_end
        } else {
            self.frames[self.frames.len() - 1].local_base
        }
    }

    /// Executes an absolute load of `count` cells at `base + offset`.
    pub fn exec_load(&mut self, base: usize, offset: usize, count: usize) -> (r: Result<
        (),
        RuntimeError,
    >)
        requires
            old(self).wf(),
            base <= old(self).memory@.len(),
        ensures
            final(self).wf(),
            rel_load_abs(*old(self), *final(self), base + offset, count as int, r),
    {
        if offset > self.memory.len() - base || count > self.memory.len() - base - offset {
            return Err(RuntimeError::OutOfBounds);
        }
        let abs = base + offset;
        let ml = self.memory.len();
        let mut j: usize = 0;
        while j < count
            invariant
                self.wf(),
                j <= count,
                ml == self.memory@.len(),
                abs + count <= self.memory@.len(),
                self.stack@ == old(self).stack@ + self.memory@.subrange(
                    abs as int,
                    abs as int + j as int,
                ),
                self.memory@ == old(self).memory@,
                self.backend.values@ == old(self).backend.values@,
                self.backend.gates@ == old(self).backend.gates@,
                VirtualMachine::same_but_stack_backend(*old(self), *self),
            decreases count - j,
        {
            let v = self.memory[abs + j];
            proof {
                assert(value_ok(self.memory@[abs + j], self.backend.values@));
            }
            self.stack.push(v);
            proof {
                assert(self.stack@ =~= old(self).stack@ + self.memory@.subrange(
                    abs as int,
                    abs as int + j + 1,
                ));
            }
            j = j + 1;
        }
        Ok(())
    }

    /// Executes an absolute scalar store at `base + offset`.
    pub fn exec_store(&mut self, base: usize, offset: usize) -> (r: Result<(), RuntimeError>)
        requires
            old(self).wf(),
            base <= old(self).memory@.len(),
        ensures
            final(self).wf(),
            rel_store_abs(*old(self), *final(self), base + offset, r),
    {
        let floor = self.stack_floor();
        if self.stack.len() < 1 || self.stack.len() - 1 < floor {
            return Err(RuntimeError::StackUnderflow);
        }
        let in_cond = self.conditions.len() > 0;
        if offset > self.memory.len() - base {
            return Err(RuntimeError::OutOfBounds);
        }
        let abs = base + offset;
        if abs == self.memory.len() && in_cond {
            return Err(RuntimeError::OutOfBounds);
        }
        let v = self.stack[self.stack.len() - 1];
        proof {
            assert(value_ok(self.stack@[self.stack@.len() - 1], self.backend.values@));
        }
        self.stack.pop();
        if in_cond {
            let prior = self.memory[abs];
            proof {
                assert(value_ok(self.memory@[abs as int], self.backend.values@));
            }
            let ci = self.conditions.len() - 1;
            let mut seen = false;
            let mut i: usize = 0;
            let nw = self.conditions[ci].writes.len();
            while i < nw
                invariant
                    0 <= ci < self.conditions@.len(),
                    nw == self.conditions@[ci as int].writes@.len(),
                    i <= nw,
                    seen == exists|t: int|
                        0 <= t < i && (#[trigger] self.conditions@[ci as int].writes@[t]).address
                            == abs,
                    abs < self.memory@.len(),
                decreases nw - i,
            {
                if self.conditions[ci].writes[i].address == abs {
                    seen = true;
                }
                i = i + 1;
            }
            if !seen {
                let w = BranchWrite { address: abs, original: prior, then_value: None };
                let mut cf = self.conditions.remove(ci);
                cf.writes.push(w);
                self.conditions.insert(ci, cf);
                proof {
                    assert(self.conditions@ =~= old(self).conditions@.update(
                        ci as int,
                        self.conditions@[ci as int],
                    ));
                }
            }
        }
        if abs == self.memory.len() {
            self.memory.push(v);
        } else {
            self.memory.set(abs, v);
        }
        proof {
            lemma_store_wf(*old(self), *final(self), abs as int, v);
        }
        Ok(())
    }
}

/// A scalar store preserves the machine invariant.
proof fn lemma_store_wf(pre: VirtualMachine, post: VirtualMachine, abs: int, v: Value)
    requires
        pre.wf(),
        0 <= abs <= pre.memory@.len(),
        value_ok(v, pre.backend.values@),
        post.backend.values@ == pre.backend.values@,
        post.backend.gates@ == pre.backend.gates@,
        post.backend.wf(),
        post.stack@ == pre.stack@.drop_last() || post.stack@ == pre.stack@,
        pre.stack@.len() > pre.spec_stack_floor() || post.stack@ == pre.stack@,
        (abs < pre.memory@.len() && post.memory@ == pre.memory@.update(abs, v)) || (abs
            == pre.memory@.len() && post.memory@ == pre.memory@.push(v)),
        post.memory@.len() >= pre.memory@.len(),
        conds_after_store(pre, post, abs),
        post.globals_end == pre.globals_end,
        post.frames@ == pre.frames@,
        post.outputs == pre.outputs,
        pre.conditions@.len() > 0 ==> post.stack@.len() >= pre.conditions@.last().stack_fork,
        pre.conditions@.len() > 0 ==> abs < pre.memory@.len(),
        post.stack@.len() >= pre.frame_floor(),
        abs <= usize::MAX,
    ensures
        post.wf(),
{
    assert(post.conditions@.len() == pre.conditions@.len());
    assert forall|k: int| 0 <= k < post.conditions@.len() implies (
    #[trigger] post.conditions@[k]).stack_fork <= post.stack@.len() by {
        assert(pre.conditions@[k].stack_fork <= pre.conditions@.last().stack_fork);
        assert(post.conditions@[k].stack_fork == pre.conditions@[k].stack_fork);
    }
    assert forall|i: int| 0 <= i < post.frames@.len() implies (
    #[trigger] post.frames@[i]).stack_height <= post.stack@.len() by {
        assert(pre.frames@[i].stack_height <= pre.frames@.last().stack_height);
        assert(pre.frames@.last().stack_height == pre.frame_floor());
    }
    let w = post.backend.values@;
    assert(values_ok(post.stack@, w)) by {
        assert forall|i: int| 0 <= i < post.stack@.len() implies value_ok(
            #[trigger] post.stack@[i],
            w,
        ) by {
            assert(post.stack@[i] == pre.stack@[i]);
            assert(value_ok(pre.stack@[i], w));
        }
    }
    assert(values_ok(post.memory@, w)) by {
        assert forall|i: int| 0 <= i < post.memory@.len() implies value_ok(
            #[trigger] post.memory@[i],
            w,
        ) by {
            if i != abs {
                assert(post.memory@[i] == pre.memory@[i]);
                assert(value_ok(pre.memory@[i], w));
            }
        }
    }
    assert forall|k: int| 0 <= k < post.conditions@.len() implies VirtualMachine::cond_ok(
        #[trigger] post.conditions@[k],
        w,
        post.memory@.len() as int,
    ) by {
        let n = pre.conditions@.len() as int;
        assert(VirtualMachine::cond_ok(pre.conditions@[k], w, pre.memory@.len() as int));
        if k < n - 1 {
            assert(post.conditions@[k] == pre.conditions@[k]);
        } else {
            let c0 = pre.conditions@[k];
            let c1 = post.conditions@[k];
            if !(exists|i: int|
                0 <= i < c0.writes@.len() && (#[trigger] c0.writes@[i]).address == abs) {
                assert(c1.writes@ == c0.writes@.push(
                    BranchWrite { address: abs as usize, original: pre.memory@[abs], then_value: None },
                ));
                assert(abs < pre.memory@.len());
                assert(value_ok(pre.memory@[abs], w));
                assert forall|i: int, j: int| 0 <= i < j < c1.writes@.len() implies (
                #[trigger] c1.writes@[i]).address != (#[trigger] c1.writes@[j]).address by {
                    if j < c0.writes@.len() {
                        assert(c1.writes@[i] == c0.writes@[i] && c1.writes@[j] == c0.writes@[j]);
                    } else {
                        assert(c1.writes@[j].address == abs);
                        assert(c1.writes@[i] == c0.writes@[i]);
                    }
                }
                assert forall|i: int| 0 <= i < c1.writes@.len() implies {
                    &&& (#[trigger] c1.writes@[i]).address < post.memory@.len()
                    &&& value_ok(c1.writes@[i].original, w)
                    &&& match c1.writes@[i].then_value {
                        Some(tv) => value_ok(tv, w),
                        None => true,
                    }
                } by {
                    if i < c0.writes@.len() {
                        assert(c1.writes@[i] == c0.writes@[i]);
                    }
                }
            }
        }
    }
}


/// Transition of `If`: the popped boolean becomes the selector of a fresh
/// condition frame. Under an enclosing frame a fresh witness for the
/// conjunction of the live bits is allocated and tied by an `And` gate;
/// outermost, the selector itself is the live bit.
pub open spec fn rel_if(
    pre: VirtualMachine,
    post: VirtualMachine,
    r: Result<(), RuntimeError>,
) -> bool {
    let floor = pre.spec_stack_floor();
    let n = pre.stack@.len() as int;
    if n < floor + 1 {
        r == Err::<(), RuntimeError>(RuntimeError::StackUnderflow) && unchanged_vm(pre, post)
    } else {
        let v = pre.stack@.last();
        if !v.is_boolean() {
            r == Err::<(), RuntimeError>(RuntimeError::TypeMismatch) && unchanged_vm(pre, post)
        } else {
            let has_parent = pre.conditions@.len() > 0;
            let live = if has_parent {
                fresh_value(
                    and_bits(pre.conditions@.last().live.concrete, v.concrete),
                    pre.backend.values@.len() as int,
                    false,
                    BOOLEAN_BIT_LENGTH,
                )
            } else {
                v
            };
            let c1 = post.conditions@.last();
            &&& r == Ok::<(), RuntimeError>(())
            &&& post.stack@ == pre.stack@.drop_last()
            &&& post.conditions@.len() == pre.conditions@.len() + 1
            &&& forall|k: int|
                0 <= k < pre.conditions@.len() ==> post.conditions@[k] == pre.conditions@[k]
            &&& c1.selector == v
            &&& c1.live == live
            &&& !c1.in_else
            &&& c1.stack_fork == n - 1
            &&& c1.then_stack@ == Seq::<Value>::empty()
            &&& c1.writes@ == Seq::<BranchWrite>::empty()
            &&& post.backend.values@ == if has_parent {
                pre.backend.values@.push(and_bits(pre.conditions@.last().live.concrete, v.concrete))
            } else {
                pre.backend.values@
            }
            &&& post.backend.gates@ == if has_parent {
                pre.backend.gates@.push(
                    Gate::Binary {
                        op: GateOp::And,
                        a: pre.conditions@.last().live.witness,
                        b: v.witness,
                        r: live.witness,
                    },
                )
            } else {
                pre.backend.gates@
            }
            &&& same_but_stack_memory_conds_backend(pre, post)
        }
    }
}

/// The conjunction of two optional bits; unknown when either is unknown.
pub open spec fn and_bits(a: Option<i128>, b: Option<i128>) -> Option<i128> {
    match (a, b) {
        (Some(x), Some(y)) => Some(
            if x != 0 && y != 0 {
                1i128
            } else {
                0i128
            },
        ),
        _ => None,
    }
}

/// The negation of an optional bit.
pub open spec fn not_bit(a: Option<i128>) -> Option<i128> {
    match a {
        Some(x) => Some(
            if x == 0 {
                1i128
            } else {
                0i128
            },
        ),
        None => None,
    }
}

/// Everything but the evaluation stack, the condition stack and the backend
/// is unchanged.
pub open spec fn same_but_stack_memory_conds_backend(
    pre: VirtualMachine,
    post: VirtualMachine,
) -> bool {
    &&& post.program@ == pre.program@
    &&& post.pc == pre.pc
    &&& post.memory@ == pre.memory@
    &&& post.globals_end == pre.globals_end
    &&& post.frames@ == pre.frames@
    &&& post.loops@ == pre.loops@
    &&& post.outputs == pre.outputs
    &&& post.log@ == pre.log@
}

/// Transition of `Else`: the then arm's stack growth is set aside, every
/// cell it wrote is restored to its original value, and the frame's live bit
/// becomes the conjunction with the negated selector (one fresh witness for
/// the negation, and one more for the conjunction under an enclosing frame).
pub open spec fn rel_else(
    pre: VirtualMachine,
    post: VirtualMachine,
    r: Result<(), RuntimeError>,
) -> bool {
    let nc = pre.conditions@.len() as int;
    if nc == 0 {
        r == Err::<(), RuntimeError>(RuntimeError::UnbalancedConditions) && unchanged_vm(pre, post)
    } else {
        let c0 = pre.conditions@.last();
        if c0.in_else {
            r == Err::<(), RuntimeError>(RuntimeError::UnbalancedConditions) && unchanged_vm(
                pre,
                post,
            )
        } else {
            let fork = c0.stack_fork as int;
            let has_parent = nc > 1;
            let w0 = pre.backend.values@.len() as int;
            let neg = fresh_value(not_bit(c0.selector.concrete), w0, false, BOOLEAN_BIT_LENGTH);
            let live = if has_parent {
                fresh_value(
                    and_bits(pre.conditions@[nc - 2].live.concrete, neg.concrete),
                    w0 + 1,
                    false,
                    BOOLEAN_BIT_LENGTH,
                )
            } else {
                neg
            };
            let c1 = post.conditions@.last();
            &&& r == Ok::<(), RuntimeError>(())
            &&& post.stack@ == pre.stack@.take(fork)
            &&& post.conditions@.len() == nc
            &&& forall|k: int| 0 <= k < nc - 1 ==> post.conditions@[k] == pre.conditions@[k]
            &&& c1.selector == c0.selector
            &&& c1.live == live
            &&& c1.in_else
            &&& c1.stack_fork == c0.stack_fork
            &&& c1.then_stack@ == pre.stack@.subrange(fork, pre.stack@.len() as int)
            &&& c1.writes@.len() == c0.writes@.len()
            &&& forall|i: int|
                0 <= i < c0.writes@.len() ==> {
                    &&& (#[trigger] c1.writes@[i]).address == (#[trigger] c0.writes@[i]).address
                    &&& c1.writes@[i].original == c0.writes@[i].original
                    &&& c1.writes@[i].then_value == Some(
                        pre.memory@[c0.writes@[i].address as int],
                    )
                }
            &&& post.memory@.len() == pre.memory@.len()
            &&& forall|i: int|
                0 <= i < c0.writes@.len() ==> post.memory@[(#[trigger] c0.writes@[i]).address
                    as int] == c0.writes@[i].original
            &&& forall|j: int|
                0 <= j < pre.memory@.len() && !(exists|i: int|
                    0 <= i < c0.writes@.len() && (#[trigger] c0.writes@[i]).address == j)
                    ==> #[trigger] post.memory@[j] == pre.memory@[j]
            &&& post.backend.values@ == if has_parent {
                pre.backend.values@.push(neg.concrete).push(live.concrete)
            } else {
                pre.backend.values@.push(neg.concrete)
            }
            &&& post.backend.gates@ == {
                let g1 = pre.backend.gates@.push(
                    Gate::Linear {
                        ca: -1i128,
                        a: c0.selector.witness,
                        cb: 0,
                        b: c0.selector.witness,
                        k: 1,
                        r: neg.witness,
                    },
                );
                if has_parent {
                    g1.push(
                        Gate::Binary {
                            op: GateOp::And,
                            a: pre.conditions@[nc - 2].live.witness,
                            b: neg.witness,
                            r: live.witness,
                        },
                    )
                } else {
                    g1
                }
            }
            &&& post.program@ == pre.program@
            &&& post.pc == pre.pc
            &&& post.globals_end == pre.globals_end
            &&& post.frames@ == pre.frames@
            &&& post.loops@ == pre.loops@
            &&& post.outputs == pre.outputs
            &&& post.log@ == pre.log@
        }
    }
}

/// Transition of `Assert`: the popped bit must be single-bit; when the live
/// conjunction is concretely set and the bit is concretely false the run
/// fails; in every other case a gate is recorded that forces the bit
/// whenever the conjunction is set (an unconditional assert forces it
/// outright).
pub open spec fn rel_assert(
    pre: VirtualMachine,
    post: VirtualMachine,
    r: Result<(), RuntimeError>,
) -> bool {
    let floor = pre.spec_stack_floor();
    let n = pre.stack@.len() as int;
    if n < floor + 1 {
        r == Err::<(), RuntimeError>(RuntimeError::StackUnderflow) && unchanged_vm(pre, post)
    } else {
        let v = pre.stack@.last();
        if !v.is_boolean() {
            r == Err::<(), RuntimeError>(RuntimeError::TypeMismatch) && unchanged_vm(pre, post)
        } else {
            let live = if pre.conditions@.len() > 0 {
                pre.conditions@.last().live.concrete
            } else {
                Some(1i128)
            };
            if live == Some(1i128) && v.concrete == Some(0i128) {
                r == Err::<(), RuntimeError>(RuntimeError::AssertionFailed) && unchanged_vm(
                    pre,
                    post,
                )
            } else {
                &&& r == Ok::<(), RuntimeError>(())
                &&& post.stack@ == pre.stack@.drop_last()
                &&& post.backend.values@ == pre.backend.values@
                &&& post.backend.gates@ == pre.backend.gates@.push(
                    if pre.conditions@.len() > 0 {
                        Gate::GatedAssert {
                            c: pre.conditions@.last().live.witness,
                            x: v.witness,
                        }
                    } else {
                        Gate::NonZero { x: v.witness }
                    },
                )
                &&& VirtualMachine::same_but_stack_backend(pre, post)
            }
        }
    }
}

/// Transition of `Dbg`: `nargs` values are popped; when the live
/// conjunction is concretely set, their concrete halves are appended to the
/// debug log together with the format text, in pop order — the top of the
/// stack first. Nothing is constrained.
pub open spec fn rel_dbg(
    pre: VirtualMachine,
    post: VirtualMachine,
    text: Seq<char>,
    nargs: usize,
    r: Result<(), RuntimeError>,
) -> bool {
    let floor = pre.spec_stack_floor();
    let n = pre.stack@.len() as int;
    if n < floor + nargs {
        r == Err::<(), RuntimeError>(RuntimeError::StackUnderflow) && unchanged_vm(pre, post)
    } else {
        let live = if pre.conditions@.len() > 0 {
            pre.conditions@.last().live.concrete
        } else {
            Some(1i128)
        };
        &&& r == Ok::<(), RuntimeError>(())
        &&& post.stack@ == pre.stack@.take(n - nargs)
        &&& post.backend.values@ == pre.backend.values@
        &&& post.backend.gates@ == pre.backend.gates@
        &&& if live == Some(1i128) {
            &&& post.log@.len() == pre.log@.len() + 1
            &&& (forall|k: int| 0 <= k < pre.log@.len() ==> post.log@[k] == pre.log@[k])
            &&& post.log@.last().text@ == text
            &&& post.log@.last().args@.len() == nargs
            &&& (forall|k: int|
                0 <= k < nargs ==> #[trigger] post.log@.last().args@[k] == pre.stack@[n - 1
                    - k].concrete)
        } else {
            post.log@ == pre.log@
        }
        &&& post.program@ == pre.program@
        &&& post.pc == pre.pc
        &&& post.memory@ == pre.memory@
        &&& post.globals_end == pre.globals_end
        &&& post.frames@ == pre.frames@
        &&& post.conditions@ == pre.conditions@
        &&& post.loops@ == pre.loops@
        &&& post.outputs == pre.outputs
    }
}

/// Transition of `Call`: the top `inputs` values move into a fresh local
/// region (deepest value at local address zero), a frame records where to
/// resume, and control jumps to `address`. A call under an open conditional
/// is not supported by this machine and is a fatal error.
pub open spec fn rel_call(
    pre: VirtualMachine,
    post: VirtualMachine,
    address: usize,
    inputs: usize,
    r: Result<(), RuntimeError>,
) -> bool {
    let floor = pre.spec_stack_floor();
    let n = pre.stack@.len() as int;
    if pre.conditions@.len() > 0 {
        r == Err::<(), RuntimeError>(RuntimeError::UnbalancedConditions) && unchanged_vm(pre, post)
    } else if n < floor + inputs {
        r == Err::<(), RuntimeError>(RuntimeError::StackUnderflow) && unchanged_vm(pre, post)
    } else {
        &&& r == Ok::<(), RuntimeError>(())
        &&& post.stack@ == pre.stack@.take(n - inputs)
        &&& post.memory@ == pre.memory@ + pre.stack@.subrange(n - inputs, n)
        &&& post.frames@ == pre.frames@.push(
            CallFrame {
                return_address: (pre.pc + 1) as usize,
                local_base: pre.memory@.len() as usize,
                stack_height: (n - inputs) as usize,
            },
        )
        &&& post.pc == address
        &&& post.conditions@ == pre.conditions@
        &&& post.loops@ == pre.loops@
        &&& post.outputs == pre.outputs
        &&& post.log@ == pre.log@
        &&& post.program@ == pre.program@
        &&& post.globals_end == pre.globals_end
        &&& post.backend.values@ == pre.backend.values@
        &&& post.backend.gates@ == pre.backend.gates@
    }
}

/// Transition of `Return`: the top `outputs` values are carried back, the
/// evaluation stack returns to the caller's height, the locals are freed,
/// and control resumes after the call. Open conditionals or a return at the
/// outermost frame are fatal errors.
pub open spec fn rel_return(
    pre: VirtualMachine,
    post: VirtualMachine,
    outputs: usize,
    r: Result<(), RuntimeError>,
) -> bool {
    let n = pre.stack@.len() as int;
    if pre.conditions@.len() > 0 {
        r == Err::<(), RuntimeError>(RuntimeError::UnbalancedConditions) && unchanged_vm(pre, post)
    } else if pre.frames@.len() == 0 {
        r == Err::<(), RuntimeError>(RuntimeError::CallStackUnderflow) && unchanged_vm(pre, post)
    } else {
        let f = pre.frames@.last();
        if n < f.stack_height + outputs {
            r == Err::<(), RuntimeError>(RuntimeError::StackUnderflow) && unchanged_vm(pre, post)
        } else {
            &&& r == Ok::<(), RuntimeError>(())
            &&& post.stack@ == pre.stack@.take(f.stack_height as int) + pre.stack@.subrange(
                n - outputs,
                n,
            )
            &&& post.memory@ == pre.memory@.take(f.local_base as int)
            &&& post.frames@ == pre.frames@.drop_last()
            &&& post.pc == f.return_address
            &&& post.conditions@ == pre.conditions@
            &&& post.loops@ == pre.loops@
            &&& post.outputs == pre.outputs
            &&& post.log@ == pre.log@
            &&& post.program@ == pre.program@
            &&& post.globals_end == pre.globals_end
            &&& post.backend.values@ == pre.backend.values@
            &&& post.backend.gates@ == pre.backend.gates@
        }
    }
}

/// Transition of `Exit`: only valid at the outermost frame with no open
/// conditional; the top `outputs` values, deepest first, become the
/// program's output and the machine halts.
pub open spec fn rel_exit(
    pre: VirtualMachine,
    post: VirtualMachine,
    outputs: usize,
    r: Result<bool, RuntimeError>,
) -> bool {
    let n = pre.stack@.len() as int;
    if pre.conditions@.len() > 0 {
        r == Err::<bool, RuntimeError>(RuntimeError::UnbalancedConditions) && unchanged_vm(
            pre,
            post,
        )
    } else if pre.frames@.len() > 0 {
        r == Err::<bool, RuntimeError>(RuntimeError::ExitInFunction) && unchanged_vm(pre, post)
    } else if n < outputs {
        r == Err::<bool, RuntimeError>(RuntimeError::StackUnderflow) && unchanged_vm(pre, post)
    } else {
        &&& r == Ok::<bool, RuntimeError>(false)
        &&& post.stack@ == pre.stack@.take(n - outputs)
        &&& post.outputs is Some
        &&& post.outputs->0@ == pre.stack@.subrange(n - outputs, n)
        &&& post.backend.values@ == pre.backend.values@
        &&& post.backend.gates@ == pre.backend.gates@
        &&& post.program@ == pre.program@
        &&& post.pc == pre.pc
        &&& post.memory@ == pre.memory@
        &&& post.globals_end == pre.globals_end
        &&& post.frames@ == pre.frames@
        &&& post.conditions@ == pre.conditions@
        &&& post.loops@ == pre.loops@
        &&& post.log@ == pre.log@
    }
}

/// Transition of `LoopBegin`: a statically bounded region opens; a trip
/// count of zero cannot be unrolled and is a fatal error.
pub open spec fn rel_loop_begin(
    pre: VirtualMachine,
    post: VirtualMachine,
    iterations: usize,
    r: Result<(), RuntimeError>,
) -> bool {
    if iterations == 0 {
        r == Err::<(), RuntimeError>(RuntimeError::UnbalancedLoop) && unchanged_vm(pre, post)
    } else {
        &&& r == Ok::<(), RuntimeError>(())
        &&& post.loops@ == pre.loops@.push(
            LoopFrame { start: (pre.pc + 1) as usize, remaining: iterations },
        )
        &&& post.stack@ == pre.stack@
        &&& post.backend.values@ == pre.backend.values@
        &&& post.backend.gates@ == pre.backend.gates@
        &&& post.program@ == pre.program@
        &&& post.pc == pre.pc
        &&& post.memory@ == pre.memory@
        &&& post.globals_end == pre.globals_end
        &&& post.frames@ == pre.frames@
        &&& post.conditions@ == pre.conditions@
        &&& post.outputs == pre.outputs
        &&& post.log@ == pre.log@
    }
}

/// Transition of `LoopEnd`: the innermost open loop either jumps back to
/// its first body instruction with one fewer round left, or closes.
pub open spec fn rel_loop_end(
    pre: VirtualMachine,
    post: VirtualMachine,
    r: Result<(), RuntimeError>,
) -> bool {
    let nl = pre.loops@.len() as int;
    if nl == 0 {
        r == Err::<(), RuntimeError>(RuntimeError::UnbalancedLoop) && unchanged_vm(pre, post)
    } else {
        let lf = pre.loops@.last();
        &&& r == Ok::<(), RuntimeError>(())
        &&& if lf.remaining > 1 {
            post.loops@ == pre.loops@.update(
                nl - 1,
                LoopFrame { start: lf.start, remaining: (lf.remaining - 1) as usize },
            ) && post.pc == lf.start
        } else {
            post.loops@ == pre.loops@.drop_last() && post.pc == pre.pc + 1
        }
        &&& post.stack@ == pre.stack@
        &&& post.backend.values@ == pre.backend.values@
        &&& post.backend.gates@ == pre.backend.gates@
        &&& post.program@ == pre.program@
        &&& post.memory@ == pre.memory@
        &&& post.globals_end == pre.globals_end
        &&& post.frames@ == pre.frames@
        &&& post.conditions@ == pre.conditions@
        &&& post.outputs == pre.outputs
        &&& post.log@ == pre.log@
    }
}

/// Transition of `CallBuiltin`: `inputs` values are handed to the external
/// operation, `outputs` fresh unconstrained witnesses come back (as wide
/// unsigned values with no concrete half), and a builtin gate records the
/// exchange. The in-memory backend resolves every identifier.
pub open spec fn rel_call_builtin(
    pre: VirtualMachine,
    post: VirtualMachine,
    identifier: usize,
    inputs: usize,
    outputs: usize,
    r: Result<(), RuntimeError>,
) -> bool {
    let floor = pre.spec_stack_floor();
    let n = pre.stack@.len() as int;
    let w0 = pre.backend.values@.len() as int;
    if n < floor + inputs {
        r == Err::<(), RuntimeError>(RuntimeError::StackUnderflow) && unchanged_vm(pre, post)
    } else {
        &&& r == Ok::<(), RuntimeError>(())
        &&& post.stack@.len() == n - inputs + outputs
        &&& post.stack@.take(n - inputs) == pre.stack@.take(n - inputs)
        &&& forall|j: int|
            0 <= j < outputs ==> #[trigger] post.stack@[n - inputs + j] == fresh_value(
                None,
                w0 + j,
                false,
                crate::value::MAX_BIT_LENGTH,
            )
        &&& post.backend.values@.len() == w0 + outputs
        &&& post.backend.values@.take(w0) == pre.backend.values@
        &&& forall|j: int| 0 <= j < outputs ==> #[trigger] post.backend.values@[w0 + j] is None
        &&& post.backend.gates@ == pre.backend.gates@.push(
            Gate::Builtin {
                identifier,
                n_args: inputs,
                first_result: w0 as usize,
                n_results: outputs,
            },
        )
        &&& VirtualMachine::same_but_stack_backend(pre, post)
    }
}


impl VirtualMachine {
    /// Executes `Assert`.
    pub fn exec_assert(&mut self) -> (r: Result<(), RuntimeError>)
        requires
            old(self).wf(),
        ensures
            final(self).wf(),
            rel_assert(*old(self), *final(self), r),
    {
        let floor = self.stack_floor();
        if self.stack.len() < 1 || self.stack.len() - 1 < floor {
            return Err(RuntimeError::StackUnderflow);
        }
        let v = self.stack[self.stack.len() - 1];
        proof {
            assert(value_ok(self.stack@[self.stack@.len() - 1], self.backend.values@));
        }
        if !(v.bit_length == 1 && !v.is_signed) {
            return Err(RuntimeError::TypeMismatch);
        }
        let g: Gate;
        if self.conditions.len() > 0 {
            let live = self.conditions[self.conditions.len() - 1].live;
            proof {
                assert(VirtualMachine::cond_ok(
                    self.conditions@[self.conditions@.len() - 1],
                    self.backend.values@,
                    self.memory@.len() as int,
                ));
            }
            if live.concrete.is_some() && live.concrete.unwrap() == 1 && v.concrete.is_some()
                && v.concrete.unwrap() == 0 {
                return Err(RuntimeError::AssertionFailed);
            }
            g = Gate::GatedAssert { c: live.witness, x: v.witness };
            proof {
                vstd::arithmetic::power2::lemma2_to64();
                assert(gate_holds(g, self.backend.values@));
            }
        } else {
            if v.concrete.is_some() && v.concrete.unwrap() == 0 {
                return Err(RuntimeError::AssertionFailed);
            }
            g = Gate::NonZero { x: v.witness };
            proof {
                vstd::arithmetic::power2::lemma2_to64();
                assert(gate_holds(g, self.backend.values@));
            }
        }
        self.backend.push_gate(g);
        self.stack.pop();
        proof {
            assert forall|i: int| 0 <= i < self.stack@.len() implies value_ok(
                #[trigger] self.stack@[i],
                self.backend.values@,
            ) by {
                assert(self.stack@[i] == old(self).stack@[i]);
            }
        }
        Ok(())
    }

    /// Executes `Dbg`.
    pub fn exec_dbg(&mut self, text: &String, nargs: usize) -> (r: Result<(), RuntimeError>)
        requires
            old(self).wf(),
        ensures
            final(self).wf(),
            rel_dbg(*old(self), *final(self), text@, nargs, r),
    {
        let floor = self.stack_floor();
        if self.stack.len() < nargs || self.stack.len() - nargs < floor {
            return Err(RuntimeError::StackUnderflow);
        }
        let live_set: bool;
        if self.conditions.len() > 0 {
            let live = self.conditions[self.conditions.len() - 1].live;
            live_set = live.concrete.is_some() && live.concrete.unwrap() == 1;
            proof {
                assert(VirtualMachine::cond_ok(
                    self.conditions@[self.conditions@.len() - 1],
                    self.backend.values@,
                    self.memory@.len() as int,
                ));
                if live_set {
                    assert(self.conditions@.last().live.concrete == Some(1i128));
                } else {
                    assert(self.conditions@.last().live.concrete != Some(1i128));
                }
            }
        } else {
            live_set = true;
        }
        let n = self.stack.len();
        let target = n - nargs;
        if live_set {
            let mut args: Vec<Option<i128>> = Vec::new();
            let mut j: usize = 0;
            while j < nargs
                invariant
                    target + nargs == n,
                    n == self.stack@.len(),
                    j <= nargs,
                    args@.len() == j,
                    forall|k: int|
                        0 <= k < j ==> #[trigger] args@[k] == self.stack@[n - 1 - k].concrete,
                decreases nargs - j,
            {
                args.push(self.stack[n - 1 - j].concrete);
                j = j + 1;
            }
            self.log.push(DbgRecord { text: text.clone(), args });
        }
        self.stack.truncate(target);
        proof {
            assert forall|i: int| 0 <= i < self.stack@.len() implies value_ok(
                #[trigger] self.stack@[i],
                self.backend.values@,
            ) by {
                assert(self.stack@[i] == old(self).stack@[i]);
            }
        }
        Ok(())
    }

    /// Executes `LoopBegin`.
    pub fn exec_loop_begin(&mut self, iterations: usize) -> (r: Result<(), RuntimeError>)
        requires
            old(self).wf(),
            old(self).pc < usize::MAX,
        ensures
            final(self).wf(),
            rel_loop_begin(*old(self), *final(self), iterations, r),
    {
        if iterations == 0 {
            return Err(RuntimeError::UnbalancedLoop);
        }
        self.loops.push(LoopFrame { start: self.pc + 1, remaining: iterations });
        Ok(())
    }

    /// Executes `LoopEnd`.
    pub fn exec_loop_end(&mut self) -> (r: Result<(), RuntimeError>)
        requires
            old(self).wf(),
            old(self).pc < usize::MAX,
        ensures
            final(self).wf(),
            rel_loop_end(*old(self), *final(self), r),
    {
        if self.loops.len() == 0 {
            return Err(RuntimeError::UnbalancedLoop);
        }
        let li = self.loops.len() - 1;
        let lf = self.loops[li];
        if lf.remaining > 1 {
            self.loops.set(li, LoopFrame { start: lf.start, remaining: lf.remaining - 1 });
            self.pc = lf.start;
        } else {
            self.loops.pop();
            self.pc = self.pc + 1;
        }
        Ok(())
    }

    /// Executes `Exit`. `Ok(false)` halts the machine.
    pub fn exec_exit(&mut self, outputs: usize) -> (r: Result<bool, RuntimeError>)
        requires
            old(self).wf(),
        ensures
            final(self).wf(),
            rel_exit(*old(self), *final(self), outputs, r),
    {
        if self.conditions.len() > 0 {
            return Err(RuntimeError::UnbalancedConditions);
        }
        if self.frames.len() > 0 {
            return Err(RuntimeError::ExitInFunction);
        }
        if self.stack.len() < outputs {
            return Err(RuntimeError::StackUnderflow);
        }
        let n = self.stack.len();
        let target = n - outputs;
        let mut outs: Vec<Value> = Vec::new();
        let mut j: usize = 0;
        while j < outputs
            invariant
                target + outputs == n,
                n == self.stack@.len(),
                j <= outputs,
                outs@ == self.stack@.subrange(target as int, target as int + j as int),
            decreases outputs - j,
        {
            outs.push(self.stack[target + j]);
            proof {
                assert(outs@ =~= self.stack@.subrange(target as int, target as int + j + 1));
            }
            j = j + 1;
        }
        self.stack.truncate(target);
        self.outputs = Some(outs);
        proof {
            assert forall|i: int| 0 <= i < self.stack@.len() implies value_ok(
                #[trigger] self.stack@[i],
                self.backend.values@,
            ) by {
                assert(self.stack@[i] == old(self).stack@[i]);
            }
            assert forall|i: int| 0 <= i < final(self).outputs->0@.len() implies value_ok(
                #[trigger] final(self).outputs->0@[i],
                self.backend.values@,
            ) by {
                assert(final(self).outputs->0@[i] == old(self).stack@[target + i]);
            }
        }
        Ok(false)
    }

    /// Executes `Call`.
    pub fn exec_call(&mut self, address: usize, inputs: usize) -> (r: Result<(), RuntimeError>)
        requires
            old(self).wf(),
            old(self).pc < usize::MAX,
        ensures
            final(self).wf(),
            rel_call(*old(self), *final(self), address, inputs, r),
    {
        if self.conditions.len() > 0 {
            return Err(RuntimeError::UnbalancedConditions);
        }
        let floor = self.stack_floor();
        if self.stack.len() < inputs || self.stack.len() - inputs < floor {
            return Err(RuntimeError::StackUnderflow);
        }
        let n = self.stack.len();
        let target = n - inputs;
        let base = self.memory.len();
        let mut j: usize = 0;
        while j < inputs
            invariant
                self.wf(),
                target + inputs == n,
                n == self.stack@.len(),
                j <= inputs,
                base == old(self).memory@.len(),
                self.stack@ == old(self).stack@,
                self.memory@ == old(self).memory@ + self.stack@.subrange(
                    target as int,
                    target as int + j as int,
                ),
                self.backend.values@ == old(self).backend.values@,
                self.backend.gates@ == old(self).backend.gates@,
                self.frames@ == old(self).frames@,
                self.conditions@ == old(self).conditions@,
                self.loops@ == old(self).loops@,
                self.outputs == old(self).outputs,
                self.log@ == old(self).log@,
                self.program@ == old(self).program@,
                self.pc == old(self).pc,
                self.globals_end == old(self).globals_end,
            decreases inputs - j,
        {
            let v = self.stack[target + j];
            proof {
                assert(value_ok(self.stack@[target + j], self.backend.values@));
            }
            self.memory.push(v);
            proof {
                assert(self.memory@ =~= old(self).memory@ + self.stack@.subrange(
                    target as int,
                    target as int + j + 1,
                ));
                assert forall|i: int| 0 <= i < self.memory@.len() implies value_ok(
                    #[trigger] self.memory@[i],
                    self.backend.values@,
                ) by {
                    if i < self.memory@.len() - 1 {
                        assert(value_ok(self.memory@[i], self.backend.values@) || self.memory@[i]
                            == v);
                    }
                }
            }
            j = j + 1;
        }
        self.frames.push(
            CallFrame { return_address: self.pc + 1, local_base: base, stack_height: target },
        );
        self.stack.truncate(target);
        self.pc = address;
        proof {
            assert forall|i: int| 0 <= i < self.stack@.len() implies value_ok(
                #[trigger] self.stack@[i],
                self.backend.values@,
            ) by {
                assert(self.stack@[i] == old(self).stack@[i]);
            }
            assert forall|i: int| 0 <= i < self.frames@.len() implies {
                &&& (#[trigger] self.frames@[i]).local_base <= self.memory@.len()
                &&& self.frames@[i].stack_height <= self.stack@.len()
                &&& self.frames@[i].local_base >= self.globals_end
            } by {
                if i < self.frames@.len() - 1 {
                    assert(self.frames@[i] == old(self).frames@[i]);
                    assert(old(self).frames@[i].stack_height <= old(self).frames@.last().stack_height);
                }
            }
        }
        Ok(())
    }

    /// Executes `Return`.
    pub fn exec_return(&mut self, outputs: usize) -> (r: Result<(), RuntimeError>)
        requires
            old(self).wf(),
        ensures
            final(self).wf(),
            rel_return(*old(self), *final(self), outputs, r),
    {
        if self.conditions.len() > 0 {
            return Err(RuntimeError::UnbalancedConditions);
        }
        if self.frames.len() == 0 {
            return Err(RuntimeError::CallStackUnderflow);
        }
        let f = self.frames[self.frames.len() - 1];
        if self.stack.len() < outputs || self.stack.len() - outputs < f.stack_height {
            return Err(RuntimeError::StackUnderflow);
        }
        let n = self.stack.len();
        let mut rets: Vec<Value> = Vec::new();
        let mut j: usize = 0;
        while j < outputs
            invariant
                n == self.stack@.len(),
                outputs <= n,
                j <= outputs,
                rets@ == self.stack@.subrange(n - outputs, n - outputs + j as int),
            decreases outputs - j,
        {
            rets.push(self.stack[n - outputs + j]);
            proof {
                assert(rets@ =~= self.stack@.subrange(n - outputs, n - outputs + j + 1));
            }
            j = j + 1;
        }
        self.stack.truncate(f.stack_height);
        let mut k: usize = 0;
        while k < outputs
            invariant
                k <= outputs,
                rets@ == old(self).stack@.subrange(n - outputs, n as int),
                n == old(self).stack@.len(),
                f.stack_height + outputs <= n,
                self.stack@ == old(self).stack@.take(f.stack_height as int) + rets@.take(
                    k as int,
                ),
                self.memory@ == old(self).memory@,
                self.backend.values@ == old(self).backend.values@,
                self.backend.gates@ == old(self).backend.gates@,
                self.frames@ == old(self).frames@,
                self.conditions@ == old(self).conditions@,
                self.loops@ == old(self).loops@,
                self.outputs == old(self).outputs,
                self.log@ == old(self).log@,
                self.program@ == old(self).program@,
                self.pc == old(self).pc,
                self.globals_end == old(self).globals_end,
            decreases outputs - k,
        {
            self.stack.push(rets[k]);
            proof {
                assert(self.stack@ =~= old(self).stack@.take(f.stack_height as int) + rets@.take(
                    k + 1,
                ));
            }
            k = k + 1;
        }
        self.memory.truncate(f.local_base);
        self.frames.pop();
        self.pc = f.return_address;
        proof {
            assert(rets@.take(outputs as int) =~= rets@);
            assert(final(self).stack@ == old(self).stack@.take(f.stack_height as int)
                + old(self).stack@.subrange(n - outputs, n as int));
            assert forall|i: int| 0 <= i < self.stack@.len() implies value_ok(
                #[trigger] self.stack@[i],
                self.backend.values@,
            ) by {
                if i < f.stack_height {
                    assert(self.stack@[i] == old(self).stack@[i]);
                } else {
                    assert(self.stack@[i] == old(self).stack@[n - outputs + (i
                        - f.stack_height)]);
                }
            }
            assert forall|i: int| 0 <= i < self.memory@.len() implies value_ok(
                #[trigger] self.memory@[i],
                self.backend.values@,
            ) by {
                assert(self.memory@[i] == old(self).memory@[i]);
            }
            assert forall|i: int| 0 <= i < self.frames@.len() implies {
                &&& (#[trigger] self.frames@[i]).local_base <= self.memory@.len()
                &&& self.frames@[i].stack_height <= self.stack@.len()
                &&& self.frames@[i].local_base >= self.globals_end
            } by {
                assert(self.frames@[i] == old(self).frames@[i]);
                assert(old(self).frames@[i].local_base <= old(self).frames@.last().local_base);
                assert(old(self).frames@[i].stack_height <= old(self).frames@.last().stack_height);
            }
        }
        Ok(())
    }

    /// Executes `CallBuiltin`.
    pub fn exec_call_builtin(&mut self, identifier: usize, inputs: usize, outputs: usize) -> (r:
        Result<(), RuntimeError>)
        requires
            old(self).wf(),
        ensures
            final(self).wf(),
            rel_call_builtin(*old(self), *final(self), identifier, inputs, outputs, r),
    {
        let floor = self.stack_floor();
        if self.stack.len() < inputs || self.stack.len() - inputs < floor {
            return Err(RuntimeError::StackUnderflow);
        }
        let n = self.stack.len();
        let target = n - inputs;
        let first = self.backend.values.len();
        self.stack.truncate(target);
        let mut j: usize = 0;
        while j < outputs
            invariant
                old(self).wf(),
                j <= outputs,
                first == old(self).backend.values@.len(),
                self.stack@ == old(self).stack@.take(target as int) + Seq::new(
                    j as nat,
                    |t: int| fresh_value(None, first + t, false, crate::value::MAX_BIT_LENGTH),
                ),
                self.backend.values@ == old(self).backend.values@ + Seq::new(
                    j as nat,
                    |t: int| None::<i128>,
                ),
                self.backend.gates@ == old(self).backend.gates@,
                self.backend.wf(),
                values_ok(self.stack@, self.backend.values@),
                values_ok(self.memory@, self.backend.values@),
                self.memory@ == old(self).memory@,
                self.frames@ == old(self).frames@,
                self.conditions@ == old(self).conditions@,
                self.loops@ == old(self).loops@,
                self.outputs == old(self).outputs,
                self.log@ == old(self).log@,
                self.program@ == old(self).program@,
                self.pc == old(self).pc,
                self.globals_end == old(self).globals_end,
                target <= old(self).stack@.len(),
            decreases outputs - j,
    {
            let w = self.backend.allocate(None);
            let v = Value {
                concrete: None,
                witness: w,
                bit_length: crate::value::MAX_BIT_LENGTH,
                is_signed: false,
            };
            self.stack.push(v);
            proof {
                assert(self.stack@ =~= old(self).stack@.take(target as int) + Seq::new(
                    (j + 1) as nat,
                    |t: int| fresh_value(None, first + t, false, crate::value::MAX_BIT_LENGTH),
                ));
                assert(self.backend.values@ =~= old(self).backend.values@ + Seq::new(
                    (j + 1) as nat,
                    |t: int| None::<i128>,
                ));
                assert forall|i: int| 0 <= i < self.stack@.len() implies value_ok(
                    #[trigger] self.stack@[i],
                    self.backend.values@,
                ) by {
                    vstd::arithmetic::power2::lemma2_to64();
                }
                assert forall|i: int| 0 <= i < self.memory@.len() implies value_ok(
                    #[trigger] self.memory@[i],
                    self.backend.values@,
                ) by {
                    assert(value_ok(old(self).memory@[i], old(self).backend.values@));
                }
            }
            j = j + 1;
        }
        let g = Gate::Builtin { identifier, n_args: inputs, first_result: first, n_results: outputs };
        proof {
            assert(gate_holds(g, self.backend.values@));
        }
        self.backend.push_gate(g);
        proof {
            lemma_vm_regions_after_builtin(*old(self), *final(self));
            assert(final(self).stack@.take(target as int) =~= old(self).stack@.take(
                target as int,
            ));
            assert(final(self).backend.values@.take(first as int) =~= old(self).backend.values@);
        }
        Ok(())
    }
}

/// After a builtin call the grown witness table still backs every auxiliary
/// region.
proof fn lemma_vm_regions_after_builtin(pre: VirtualMachine, post: VirtualMachine)
    requires
        pre.wf(),
        post.backend.wf(),
        values_ok(post.stack@, post.backend.values@),
        values_ok(post.memory@, post.backend.values@),
        pre.backend.values@.is_prefix_of(post.backend.values@),
        post.memory@ == pre.memory@,
        post.frames@ == pre.frames@,
        post.conditions@ == pre.conditions@,
        post.outputs == pre.outputs,
        post.globals_end == pre.globals_end,
        post.stack@.len() >= pre.spec_stack_floor(),
        forall|k: int|
            0 <= k < post.conditions@.len() ==> (#[trigger] post.conditions@[k]).stack_fork
                <= post.stack@.len(),
        forall|i: int|
            0 <= i < post.frames@.len() ==> (#[trigger] post.frames@[i]).stack_height
                <= post.stack@.len(),
    ensures
        post.wf(),
{
    let w0 = pre.backend.values@;
    let w2 = post.backend.values@;
    assert forall|v: Value| value_ok(v, w0) implies value_ok(v, w2) by {
        assert(w2[v.witness as int] == w0[v.witness as int]);
    }
    match pre.outputs {
        Some(v) => {
            assert forall|i: int| 0 <= i < v@.len() implies value_ok(
                #[trigger] v@[i],
                w2,
            ) by {
                assert(value_ok(v@[i], w0));
            }
        },
        None => {},
    }
    assert forall|k: int| 0 <= k < post.conditions@.len() implies VirtualMachine::cond_ok(
        #[trigger] post.conditions@[k],
        w2,
        post.memory@.len() as int,
    ) by {
        let cf = post.conditions@[k];
        assert(VirtualMachine::cond_ok(cf, w0, pre.memory@.len() as int));
        assert forall|i: int| 0 <= i < cf.then_stack@.len() implies value_ok(
            #[trigger] cf.then_stack@[i],
            w2,
        ) by {
            assert(value_ok(cf.then_stack@[i], w0));
        }
        assert forall|i: int| 0 <= i < cf.writes@.len() implies {
            &&& (#[trigger] cf.writes@[i]).address < post.memory@.len()
            &&& value_ok(cf.writes@[i].original, w2)
            &&& match cf.writes@[i].then_value {
                Some(v) => value_ok(v, w2),
                None => true,
            }
        } by {
            assert(value_ok(cf.writes@[i].original, w0));
            match cf.writes@[i].then_value {
                Some(v) => {
                    assert(value_ok(v, w0));
                },
                None => {},
            }
        }
    }
}


impl VirtualMachine {
    /// Executes `If`.
    pub fn exec_if(&mut self) -> (r: Result<(), RuntimeError>)
        requires
            old(self).wf(),
        ensures
            final(self).wf(),
            rel_if(*old(self), *final(self), r),
    {
        let floor = self.stack_floor();
        if self.stack.len() < 1 || self.stack.len() - 1 < floor {
            return Err(RuntimeError::StackUnderflow);
        }
        let v = self.stack[self.stack.len() - 1];
        proof {
            assert(value_ok(self.stack@[self.stack@.len() - 1], self.backend.values@));
        }
        if !(v.bit_length == 1 && !v.is_signed) {
            return Err(RuntimeError::TypeMismatch);
        }
        self.stack.pop();
        let live: Value;
        if self.conditions.len() > 0 {
            let parent_live = self.conditions[self.conditions.len() - 1].live;
            proof {
                assert(VirtualMachine::cond_ok(
                    self.conditions@[self.conditions@.len() - 1],
                    self.backend.values@,
                    self.memory@.len() as int,
                ));
                vstd::arithmetic::power2::lemma2_to64();
            }
            let c: Option<i128> = match (parent_live.concrete, v.concrete) {
                (Some(x), Some(y)) => Some(
                    if x != 0 && y != 0 {
                        1
                    } else {
                        0
                    },
                ),
                _ => None,
            };
            let w = self.backend.allocate(c);
            let g = Gate::Binary { op: GateOp::And, a: parent_live.witness, b: v.witness, r: w };
            proof {
                assert(gate_holds(g, self.backend.values@));
            }
            self.backend.push_gate(g);
            live = Value { concrete: c, witness: w, bit_length: 1, is_signed: false };
        } else {
            live = v;
        }
        let fork = self.stack.len();
        self.conditions.push(
            CondFrame {
                selector: v,
                live,
                in_else: false,
                stack_fork: fork,
                then_stack: Vec::new(),
                writes: Vec::new(),
            },
        );
        proof {
            vstd::arithmetic::power2::lemma2_to64();
            let w2 = self.backend.values@;
            assert forall|i: int| 0 <= i < self.stack@.len() implies value_ok(
                #[trigger] self.stack@[i],
                w2,
            ) by {
                assert(self.stack@[i] == old(self).stack@[i]);
                assert(value_ok(old(self).stack@[i], old(self).backend.values@));
            }
            assert forall|i: int| 0 <= i < self.memory@.len() implies value_ok(
                #[trigger] self.memory@[i],
                w2,
            ) by {
                assert(value_ok(old(self).memory@[i], old(self).backend.values@));
            }
            match &self.outputs {
                Some(ov) => {
                    assert forall|i: int| 0 <= i < ov@.len() implies value_ok(
                        #[trigger] ov@[i],
                        w2,
                    ) by {
                        assert(value_ok(ov@[i], old(self).backend.values@));
                    }
                },
                None => {},
            }
            assert forall|k: int| 0 <= k < self.conditions@.len() implies
                VirtualMachine::cond_ok(#[trigger] self.conditions@[k], w2, self.memory@.len() as int) by {
                if k < self.conditions@.len() - 1 {
                    let cf = self.conditions@[k];
                    assert(cf == old(self).conditions@[k]);
                    assert(VirtualMachine::cond_ok(cf, old(self).backend.values@, old(self).memory@.len() as int));
                    assert forall|i: int| 0 <= i < cf.then_stack@.len() implies value_ok(
                        #[trigger] cf.then_stack@[i],
                        w2,
                    ) by {
                        assert(value_ok(cf.then_stack@[i], old(self).backend.values@));
                    }
                    assert forall|i: int| 0 <= i < cf.writes@.len() implies {
                        &&& (#[trigger] cf.writes@[i]).address < self.memory@.len()
                        &&& value_ok(cf.writes@[i].original, w2)
                        &&& match cf.writes@[i].then_value {
                            Some(tv) => value_ok(tv, w2),
                            None => true,
                        }
                    } by {
                        assert(value_ok(cf.writes@[i].original, old(self).backend.values@));
                        match cf.writes@[i].then_value {
                            Some(tv) => {
                                assert(value_ok(tv, old(self).backend.values@));
                            },
                            None => {},
                        }
                    }
                }
            }
        }
        Ok(())
    }

    /// Executes `Else`.
    #[verifier::rlimit(100)]
    pub fn exec_else(&mut self) -> (r: Result<(), RuntimeError>)
        requires
            old(self).wf(),
        ensures
            final(self).wf(),
            rel_else(*old(self), *final(self), r),
    {
        if self.conditions.len() == 0 {
            return Err(RuntimeError::UnbalancedConditions);
        }
        let ci = self.conditions.len() - 1;
        if self.conditions[ci].in_else {
            return Err(RuntimeError::UnbalancedConditions);
        }
        let sel = self.conditions[ci].selector;
        let fork = self.conditions[ci].stack_fork;
        proof {
            assert(VirtualMachine::cond_ok(
                self.conditions@[ci as int],
                self.backend.values@,
                self.memory@.len() as int,
            ));
            vstd::arithmetic::power2::lemma2_to64();
        }
        // the negated selector, and the new live conjunction
        let nc: Option<i128> = match sel.concrete {
            Some(x) => Some(
                if x == 0 {
                    1
                } else {
                    0
                },
            ),
            None => None,
        };
        let nw = self.backend.allocate(nc);
        let gneg = Gate::Linear {
            ca: -1,
            a: sel.witness,
            cb: 0,
            b: sel.witness,
            k: 1,
            r: nw,
        };
        proof {
            assert(gneg.arrow_Linear_ca() == -1 && gneg.arrow_Linear_cb() == 0);
            assert(gate_holds(gneg, self.backend.values@));
        }
        self.backend.push_gate(gneg);
        let neg = Value { concrete: nc, witness: nw, bit_length: 1, is_signed: false };
        let live: Value;
        if ci > 0 {
            let parent_live = self.conditions[ci - 1].live;
            proof {
                assert(VirtualMachine::cond_ok(
                    old(self).conditions@[ci - 1],
                    old(self).backend.values@,
                    old(self).memory@.len() as int,
                ));
                assert(value_ok(parent_live, self.backend.values@));
            }
            let lc: Option<i128> = match (parent_live.concrete, nc) {
                (Some(x), Some(y)) => Some(
                    if x != 0 && y != 0 {
                        1
                    } else {
                        0
                    },
                ),
                _ => None,
            };
            let lw = self.backend.allocate(lc);
            let gand = Gate::Binary { op: GateOp::And, a: parent_live.witness, b: nw, r: lw };
            proof {
                assert(gate_holds(gand, self.backend.values@));
            }
            self.backend.push_gate(gand);
            live = Value { concrete: lc, witness: lw, bit_length: 1, is_signed: false };
        } else {
            live = neg;
        }
        // set the then arm's stack growth aside
        let mut then_stack: Vec<Value> = Vec::new();
        let n = self.stack.len();
        let mut j: usize = fork;
        while j < n
            invariant
                fork <= j <= n,
                n == self.stack@.len(),
                self.stack@ == old(self).stack@,
                then_stack@ == self.stack@.subrange(fork as int, j as int),
            decreases n - j,
        {
            then_stack.push(self.stack[j]);
            proof {
                assert(then_stack@ =~= self.stack@.subrange(fork as int, j + 1));
            }
            j = j + 1;
        }
        self.stack.truncate(fork);
        // restore every written cell and remember the then arm's value
        let frame = self.conditions.remove(ci);
        let mut writes = frame.writes;
        let mut i: usize = 0;
        let ghost writes0 = writes@;
        let ghost b0 = self.backend.values@;
        let ghost g0 = self.backend.gates@;
        let nwr = writes.len();
        proof {
            assert(writes0 == old(self).conditions@[ci as int].writes@);
        }
        while i < nwr
            invariant
                i <= nwr,
                nwr == writes@.len(),
                writes0.len() == nwr,
                ci as int == self.conditions@.len() as int,
                self.backend.values@ == b0,
                self.backend.gates@ == g0,
                self.backend.wf(),
                self.conditions@ == old(self).conditions@.subrange(0, ci as int),
                self.frames@ == old(self).frames@,
                self.loops@ == old(self).loops@,
                self.outputs == old(self).outputs,
                self.log@ == old(self).log@,
                self.pc == old(self).pc,
                self.program@ == old(self).program@,
                self.globals_end == old(self).globals_end,
                self.stack@ == old(self).stack@.take(
                    old(self).conditions@[ci as int].stack_fork as int,
                ),
                forall|t: int|
                    0 <= t < nwr ==> (#[trigger] writes0[t]).address < self.memory@.len(),
                forall|t: int, u: int|
                    0 <= t < u < nwr ==> (#[trigger] writes0[t]).address != (
                    #[trigger] writes0[u]).address,
                forall|t: int|
                    i <= t < nwr ==> #[trigger] writes@[t] == writes0[t],
                forall|t: int|
                    0 <= t < i ==> {
                        &&& (#[trigger] writes@[t]).address == writes0[t].address
                        &&& writes@[t].original == writes0[t].original
                        &&& writes@[t].then_value == Some(
                            old(self).memory@[writes0[t].address as int],
                        )
                    },
                self.memory@.len() == old(self).memory@.len(),
                forall|t: int|
                    0 <= t < i ==> #[trigger] self.memory@[writes0[t].address as int]
                        == writes0[t].original,
                forall|jj: int|
                    0 <= jj < self.memory@.len() && !(exists|t: int|
                        0 <= t < i && (#[trigger] writes0[t]).address == jj)
                        ==> #[trigger] self.memory@[jj] == old(self).memory@[jj],
                values_ok(self.memory@, self.backend.values@),
                forall|t: int|
                    0 <= t < nwr ==> value_ok((#[trigger] writes0[t]).original,
                    self.backend.values@),
            decreases nwr - i,
        {
            let wr = writes[i];
            let prior = self.memory[wr.address];
            proof {
                assert(value_ok(self.memory@[wr.address as int], self.backend.values@));
            }
            writes.set(i, BranchWrite { address: wr.address, original: wr.original, then_value: Some(prior) });
            self.memory.set(wr.address, wr.original);
            proof {
                assert(wr == writes0[i as int]);
                assert forall|t: int| 0 <= t < i + 1 implies #[trigger] self.memory@[
                    writes0[t].address as int] == writes0[t].original by {
                    if t < i {
                        assert(writes0[t].address != writes0[i as int].address);
                    }
                }
                assert forall|mm: int| 0 <= mm < self.memory@.len() implies value_ok(
                    #[trigger] self.memory@[mm],
                    self.backend.values@,
                ) by {
                    if mm != wr.address {
                    } else {
                        assert(value_ok(writes0[i as int].original, self.backend.values@));
                    }
                }
            }
            i = i + 1;
        }
        self.conditions.insert(
            ci,
            CondFrame {
                selector: frame.selector,
                live,
                in_else: true,
                stack_fork: fork,
                then_stack,
                writes,
            },
        );
        proof {
            lemma_else_wf(*old(self), *final(self), ci as int);
        }
        Ok(())
    }
}

/// The machine invariant survives an `Else`.
#[verifier::rlimit(100)]
#[verifier::spinoff_prover]
proof fn lemma_else_wf(pre: VirtualMachine, post: VirtualMachine, ci: int)
    requires
        pre.wf(),
        post.backend.wf(),
        ci == pre.conditions@.len() - 1,
        0 <= ci,
        rel_else(pre, post, Ok::<(), RuntimeError>(())),
        values_ok(post.memory@, post.backend.values@),
        pre.backend.values@.is_prefix_of(post.backend.values@),
        value_ok(post.conditions@.last().live, post.backend.values@),
        post.conditions@.last().live.is_boolean(),
    ensures
        post.wf(),
{
    let w0 = pre.backend.values@;
    let w2 = post.backend.values@;
    assert forall|v: Value| value_ok(v, w0) implies value_ok(v, w2) by {
        assert(w2[v.witness as int] == w0[v.witness as int]);
    }
    let fork = pre.conditions@.last().stack_fork as int;
    assert forall|i: int| 0 <= i < post.stack@.len() implies value_ok(
        #[trigger] post.stack@[i],
        w2,
    ) by {
        assert(post.stack@[i] == pre.stack@[i]);
        assert(value_ok(pre.stack@[i], w0));
    }
    match post.outputs {
        Some(ov) => {
            assert forall|i: int| 0 <= i < ov@.len() implies value_ok(#[trigger] ov@[i], w2) by {
                assert(value_ok(ov@[i], w0));
            }
        },
        None => {},
    }
    assert forall|k: int| 0 <= k < post.conditions@.len() implies VirtualMachine::cond_ok(
        #[trigger] post.conditions@[k],
        w2,
        post.memory@.len() as int,
    ) by {
        let c0 = pre.conditions@[k];
        assert(VirtualMachine::cond_ok(c0, w0, pre.memory@.len() as int));
        let c1 = post.conditions@[k];
        if k < ci {
            assert(c1 == c0);
            assert forall|i: int| 0 <= i < c0.then_stack@.len() implies value_ok(
                #[trigger] c0.then_stack@[i],
                w2,
            ) by {
                assert(value_ok(c0.then_stack@[i], w0));
            }
            assert forall|i: int| 0 <= i < c0.writes@.len() implies {
                &&& (#[trigger] c0.writes@[i]).address < post.memory@.len()
                &&& value_ok(c0.writes@[i].original, w2)
                &&& match c0.writes@[i].then_value {
                    Some(tv) => value_ok(tv, w2),
                    None => true,
                }
            } by {
                assert(value_ok(c0.writes@[i].original, w0));
                match c0.writes@[i].then_value {
                    Some(tv) => {
                        assert(value_ok(tv, w0));
                    },
                    None => {},
                }
            }
        } else {
            assert(value_ok(c1.selector, w2)) by {
                assert(c1.selector == c0.selector);
                assert(value_ok(c0.selector, w0));
            }
            assert forall|i: int| 0 <= i < c1.then_stack@.len() implies value_ok(
                #[trigger] c1.then_stack@[i],
                w2,
            ) by {
                assert(c1.then_stack@[i] == pre.stack@[fork + i]);
                assert(value_ok(pre.stack@[fork + i], w0));
            }
            assert forall|i: int| 0 <= i < c1.writes@.len() implies {
                &&& (#[trigger] c1.writes@[i]).address < post.memory@.len()
                &&& value_ok(c1.writes@[i].original, w2)
                &&& match c1.writes@[i].then_value {
                    Some(tv) => value_ok(tv, w2),
                    None => true,
                }
            } by {
                assert(c1.writes@[i].address == c0.writes@[i].address);
                assert(c1.writes@[i].original == c0.writes@[i].original);
                assert(value_ok(c0.writes@[i].original, w0));
                assert(c1.writes@[i].then_value == Some(
                    pre.memory@[c0.writes@[i].address as int],
                ));
                assert(value_ok(pre.memory@[c0.writes@[i].address as int], w0));
            }
            assert forall|i: int, j: int| 0 <= i < j < c1.writes@.len() implies (
            #[trigger] c1.writes@[i]).address != (#[trigger] c1.writes@[j]).address by {
                assert(c0.writes@[i].address != c0.writes@[j].address);
            }
        }
    }
    assert forall|k: int| 0 <= k < post.conditions@.len() implies (
    #[trigger] post.conditions@[k]).stack_fork <= post.stack@.len() by {
        assert(pre.conditions@[k].stack_fork <= pre.conditions@.last().stack_fork);
        assert(post.conditions@[k].stack_fork == pre.conditions@[k].stack_fork);
    }
    assert forall|j: int, k: int| 0 <= j <= k < post.conditions@.len() implies (
    #[trigger] post.conditions@[j].stack_fork) <= (#[trigger] post.conditions@[k].stack_fork) by {
        assert(post.conditions@[j].stack_fork == pre.conditions@[j].stack_fork);
        assert(post.conditions@[k].stack_fork == pre.conditions@[k].stack_fork);
    }
    assert forall|k: int| 0 <= k < post.conditions@.len() implies (
    #[trigger] post.conditions@[k]).stack_fork >= post.frame_floor() by {
        assert(post.conditions@[k].stack_fork == pre.conditions@[k].stack_fork);
        assert(pre.conditions@[k].stack_fork >= pre.frame_floor());
    }
    assert forall|i: int| 0 <= i < post.frames@.len() implies {
        &&& (#[trigger] post.frames@[i]).local_base <= post.memory@.len()
        &&& post.frames@[i].stack_height <= post.stack@.len()
        &&& post.frames@[i].local_base >= post.globals_end
    } by {
        assert(post.frames@[i] == pre.frames@[i]);
        assert(pre.frames@[i].stack_height <= pre.frames@.last().stack_height);
        assert(pre.conditions@.last().stack_fork >= pre.frame_floor());
    }
}


/// Records into `ws` every entry of `recs` whose address it does not hold
/// yet: how a closing conditional's writes propagate into its parent frame.
pub open spec fn extended_writes(ws: Seq<BranchWrite>, recs: Seq<BranchWrite>) -> Seq<BranchWrite>
    decreases recs.len(),
{
    if recs.len() == 0 {
        ws
    } else {
        let w0 = recs[0];
        let ws1 = if exists|i: int| 0 <= i < ws.len() && (#[trigger] ws[i]).address == w0.address {
            ws
        } else {
            ws.push(w0)
        };
        extended_writes(ws1, recs.drop_first())
    }
}

/// The then-arm value of a recorded write at `EndIf` time.
pub open spec fn endif_then_value(pre: VirtualMachine, c: CondFrame, i: int) -> Value {
    if c.in_else {
        match c.writes@[i].then_value {
            Some(tv) => tv,
            None => c.writes@[i].original,
        }
    } else {
        pre.memory@[c.writes@[i].address as int]
    }
}

/// The else-arm value of a recorded write at `EndIf` time.
pub open spec fn endif_else_value(pre: VirtualMachine, c: CondFrame, i: int) -> Value {
    if c.in_else {
        pre.memory@[c.writes@[i].address as int]
    } else {
        c.writes@[i].original
    }
}

/// The concrete half a selection produces.
pub open spec fn select_concrete(sel: Option<i128>, t: Option<i128>, e: Option<i128>) -> Option<
    i128,
> {
    match sel {
        Some(s) => if s == 1 {
            t
        } else {
            e
        },
        None => None,
    }
}

/// Transition of `EndIf`, the branch merger: the innermost condition frame
/// closes; every cell either arm wrote receives a fresh witness selecting
/// between the then value and the else value under the frame's selector,
/// with one `Select` gate each; the values the arms pushed are merged
/// pairwise the same way (an if without an else must push nothing); and each
/// merged cell is recorded as a write of the enclosing frame, if one is
/// open, with the value it held before the whole conditional.
pub open spec fn rel_endif(
    pre: VirtualMachine,
    post: VirtualMachine,
    r: Result<(), RuntimeError>,
) -> bool {
    let ncond = pre.conditions@.len() as int;
    if ncond == 0 {
        r == Err::<(), RuntimeError>(RuntimeError::UnbalancedConditions) && unchanged_vm(pre, post)
    } else {
        let c = pre.conditions@.last();
        let fork = c.stack_fork as int;
        let n = pre.stack@.len() as int;
        let nw = c.writes@.len() as int;
        let ns = n - fork;
        if !c.in_else && ns != 0 {
            r == Err::<(), RuntimeError>(RuntimeError::UnbalancedBranches) && unchanged_vm(
                pre,
                post,
            )
        } else if c.in_else && ns != c.then_stack@.len() {
            r == Err::<(), RuntimeError>(RuntimeError::UnbalancedBranches) && unchanged_vm(
                pre,
                post,
            )
        } else if (exists|i: int|
            0 <= i < nw && !(#[trigger] endif_then_value(pre, c, i)).same_type(
                endif_else_value(pre, c, i),
            )) || (exists|j: int|
            0 <= j < ns && !(#[trigger] c.then_stack@[j]).same_type(pre.stack@[fork + j])) {
            r == Err::<(), RuntimeError>(RuntimeError::TypeMismatch) && unchanged_vm(pre, post)
        } else {
            let w0 = pre.backend.values@.len() as int;
            let sel = c.selector;
            &&& r == Ok::<(), RuntimeError>(())
            &&& post.conditions@.len() == ncond - 1
            &&& (forall|k: int|
                0 <= k < ncond - 2 ==> post.conditions@[k] == pre.conditions@[k])
            &&& (ncond >= 2 ==> {
                let p0 = pre.conditions@[ncond - 2];
                let p1 = post.conditions@[ncond - 2];
                &&& p1.selector == p0.selector
                &&& p1.live == p0.live
                &&& p1.in_else == p0.in_else
                &&& p1.stack_fork == p0.stack_fork
                &&& p1.then_stack@ == p0.then_stack@
                &&& p1.writes@ == extended_writes(
                    p0.writes@,
                    Seq::new(
                        nw as nat,
                        |i: int|
                            BranchWrite {
                                address: c.writes@[i].address,
                                original: c.writes@[i].original,
                                then_value: None,
                            },
                    ),
                )
            })
            &&& post.memory@.len() == pre.memory@.len()
            &&& (forall|i: int|
                0 <= i < nw ==> #[trigger] post.memory@[c.writes@[i].address as int]
                    == fresh_value(
                    select_concrete(
                        sel.concrete,
                        endif_then_value(pre, c, i).concrete,
                        endif_else_value(pre, c, i).concrete,
                    ),
                    w0 + i,
                    endif_then_value(pre, c, i).is_signed,
                    endif_then_value(pre, c, i).bit_length,
                ))
            &&& (forall|j: int|
                0 <= j < pre.memory@.len() && !(exists|i: int|
                    0 <= i < nw && (#[trigger] c.writes@[i]).address == j)
                    ==> #[trigger] post.memory@[j] == pre.memory@[j])
            &&& post.stack@.len() == fork + ns
            &&& post.stack@.take(fork) == pre.stack@.take(fork)
            &&& (forall|j: int|
                0 <= j < ns ==> #[trigger] post.stack@[fork + j] == fresh_value(
                    select_concrete(
                        sel.concrete,
                        c.then_stack@[j].concrete,
                        pre.stack@[fork + j].concrete,
                    ),
                    w0 + nw + j,
                    c.then_stack@[j].is_signed,
                    c.then_stack@[j].bit_length,
                ))
            &&& post.backend.values@.len() == w0 + nw + ns
            &&& post.backend.values@.take(w0) == pre.backend.values@
            &&& (forall|i: int|
                0 <= i < nw ==> #[trigger] post.backend.values@[w0 + i] == select_concrete(
                    sel.concrete,
                    endif_then_value(pre, c, i).concrete,
                    endif_else_value(pre, c, i).concrete,
                ))
            &&& (forall|j: int|
                0 <= j < ns ==> #[trigger] post.backend.values@[w0 + nw + j] == select_concrete(
                    sel.concrete,
                    c.then_stack@[j].concrete,
                    pre.stack@[fork + j].concrete,
                ))
            &&& post.backend.gates@.len() == pre.backend.gates@.len() + nw + ns
            &&& post.backend.gates@.take(pre.backend.gates@.len() as int) == pre.backend.gates@
            &&& (forall|i: int|
                0 <= i < nw ==> #[trigger] post.backend.gates@[pre.backend.gates@.len() + i]
                    == (Gate::Select {
                    s: sel.witness,
                    t: endif_then_value(pre, c, i).witness,
                    f: endif_else_value(pre, c, i).witness,
                    r: (w0 + i) as usize,
                }))
            &&& (forall|j: int|
                0 <= j < ns ==> #[trigger] post.backend.gates@[pre.backend.gates@.len() + nw + j]
                    == (Gate::Select {
                    s: sel.witness,
                    t: c.then_stack@[j].witness,
                    f: pre.stack@[fork + j].witness,
                    r: (w0 + nw + j) as usize,
                }))
            &&& post.program@ == pre.program@
            &&& post.pc == pre.pc
            &&& post.globals_end == pre.globals_end
            &&& post.frames@ == pre.frames@
            &&& post.loops@ == pre.loops@
            &&& post.outputs == pre.outputs
            &&& post.log@ == pre.log@
        }
    }
}


/// One recording step of `extended_writes`, unrolled from the back.
proof fn lemma_extended_writes_snoc(ws: Seq<BranchWrite>, recs: Seq<BranchWrite>, x: BranchWrite)
    ensures
        extended_writes(ws, recs.push(x)) == {
            let mid = extended_writes(ws, recs);
            if exists|i: int| 0 <= i < mid.len() && (#[trigger] mid[i]).address == x.address {
                mid
            } else {
                mid.push(x)
            }
        },
    decreases recs.len(),
{
    if recs.len() == 0 {
        assert(recs.push(x).drop_first() =~= Seq::<BranchWrite>::empty());
        assert(recs.push(x)[0] == x);
        let ws1 = if exists|i: int| 0 <= i < ws.len() && (#[trigger] ws[i]).address == x.address {
            ws
        } else {
            ws.push(x)
        };
        assert(extended_writes(ws, recs.push(x)) == extended_writes(
            ws1,
            recs.push(x).drop_first(),
        ));
        assert(extended_writes(ws1, recs.push(x).drop_first()) == ws1);
        assert(extended_writes(ws, recs) == ws);
    } else {
        assert(recs.push(x)[0] == recs[0]);
        assert(recs.push(x).drop_first() =~= recs.drop_first().push(x));
        let w0 = recs[0];
        let ws1 = if exists|i: int| 0 <= i < ws.len() && (#[trigger] ws[i]).address == w0.address {
            ws
        } else {
            ws.push(w0)
        };
        lemma_extended_writes_snoc(ws1, recs.drop_first(), x);
    }
}

impl VirtualMachine {
    /// Executes `EndIf`.
    #[verifier::rlimit(100)]
    #[verifier::spinoff_prover]
    pub fn exec_endif(&mut self) -> (r: Result<(), RuntimeError>)
        requires
            old(self).wf(),
        ensures
            final(self).wf(),
            rel_endif(*old(self), *final(self), r),
    {
        if self.conditions.len() == 0 {
            return Err(RuntimeError::UnbalancedConditions);
        }
        let ci = self.conditions.len() - 1;
        proof {
            assert(VirtualMachine::cond_ok(
                self.conditions@[ci as int],
                self.backend.values@,
                self.memory@.len() as int,
            ));
            vstd::arithmetic::power2::lemma2_to64();
        }
        let in_else = self.conditions[ci].in_else;
        let fork = self.conditions[ci].stack_fork;
        let ns = self.stack.len() - fork;
        if !in_else && ns != 0 {
            return Err(RuntimeError::UnbalancedBranches);
        }
        if in_else && ns != self.conditions[ci].then_stack.len() {
            return Err(RuntimeError::UnbalancedBranches);
        }
        let nw = self.conditions[ci].writes.len();
        let sn = self.stack.len();
        // validate the merge pairs before touching anything
        let mut i: usize = 0;
        while i < nw
            invariant
                old(self).wf(),
                *self == *old(self),
                0 <= ci < self.conditions@.len(),
                ci as int == self.conditions@.len() - 1,
                nw == self.conditions@[ci as int].writes@.len(),
                in_else == self.conditions@[ci as int].in_else,
                fork == self.conditions@[ci as int].stack_fork,
                sn == self.stack@.len(),
                fork + ns == sn,
                in_else ==> ns == self.conditions@[ci as int].then_stack@.len(),
                !in_else ==> ns == 0,
                i <= nw,
                forall|t: int|
                    0 <= t < i ==> (#[trigger] endif_then_value(
                        *old(self),
                        old(self).conditions@.last(),
                        t,
                    )).same_type(endif_else_value(*old(self), old(self).conditions@.last(), t)),
            decreases nw - i,
        {
            proof {
                assert(VirtualMachine::cond_ok(
                    self.conditions@[ci as int],
                    self.backend.values@,
                    self.memory@.len() as int,
                ));
            }
            let wr = self.conditions[ci].writes[i];
            let tv: Value;
            let ev: Value;
            if in_else {
                tv = match wr.then_value {
                    Some(t) => t,
                    None => wr.original,
                };
                ev = self.memory[wr.address];
            } else {
                tv = self.memory[wr.address];
                ev = wr.original;
            }
            proof {
                assert(tv == endif_then_value(*old(self), old(self).conditions@.last(), i as int));
                assert(ev == endif_else_value(*old(self), old(self).conditions@.last(), i as int));
            }
            if !(tv.bit_length == ev.bit_length && tv.is_signed == ev.is_signed) {
                return Err(RuntimeError::TypeMismatch);
            }
            i = i + 1;
        }
        let mut j: usize = 0;
        while j < ns
            invariant
                old(self).wf(),
                *self == *old(self),
                0 <= ci < self.conditions@.len(),
                ci as int == self.conditions@.len() - 1,
                in_else == self.conditions@[ci as int].in_else,
                fork == self.conditions@[ci as int].stack_fork,
                sn == self.stack@.len(),
                fork + ns == sn,
                in_else ==> ns == self.conditions@[ci as int].then_stack@.len(),
                !in_else ==> ns == 0,
                j <= ns,
                forall|t: int|
                    0 <= t < j ==> (#[trigger] old(self).conditions@.last().then_stack@[
                    t]).same_type(old(self).stack@[fork + t]),
            decreases ns - j,
        {
            let tv = self.conditions[ci].then_stack[j];
            let ev = self.stack[fork + j];
            proof {
                assert(tv == old(self).conditions@.last().then_stack@[j as int]);
                assert(ev == old(self).stack@[fork + j]);
            }
            if !(tv.bit_length == ev.bit_length && tv.is_signed == ev.is_signed) {
                return Err(RuntimeError::TypeMismatch);
            }
            j = j + 1;
        }
        // merge
        let frame = match self.conditions.pop() {
            Some(f) => f,
            None => {
                proof {
                    assert(false);
                }
                return Err(RuntimeError::UnbalancedConditions);
            },
        };
        let sel = frame.selector;
        let ghost pre = *old(self);
        let ghost c = pre.conditions@.last();
        let ghost w0 = self.backend.values@.len() as int;
        let ghost g0 = self.backend.gates@.len() as int;
        proof {
            assert(frame == pre.conditions@.last());
            assert(self.backend.values@.take(w0) =~= pre.backend.values@);
            assert(self.backend.gates@.take(g0) =~= pre.backend.gates@);
            assert(self.stack@.take(fork as int) =~= pre.stack@.take(fork as int));
            assert(VirtualMachine::cond_ok(c, pre.backend.values@, pre.memory@.len() as int));
        }
        let mut i2: usize = 0;
        while i2 < nw
            invariant
                pre.wf(),
                pre == *old(self),
                pre.conditions@.len() > 0,
                c == pre.conditions@.last(),
                sel == c.selector,
                value_ok(sel, pre.backend.values@),
                sel.is_boolean(),
                in_else == c.in_else,
                fork == c.stack_fork,
                nw == c.writes@.len(),
                frame.writes@ == c.writes@,
                frame.then_stack@ == c.then_stack@,
                fork + ns == pre.stack@.len(),
                sn == pre.stack@.len(),
                in_else ==> ns == c.then_stack@.len(),
                !in_else ==> ns == 0,
                forall|t: int|
                    0 <= t < nw ==> (#[trigger] endif_then_value(pre, c, t)).same_type(
                        endif_else_value(pre, c, t),
                    ),
                i2 <= nw,
                w0 == pre.backend.values@.len() as int,
                g0 == pre.backend.gates@.len() as int,
                self.backend.values@.len() == w0 + i2,
                self.backend.values@.take(w0) == pre.backend.values@,
                forall|t: int|
                    0 <= t < i2 ==> #[trigger] self.backend.values@[w0 + t] == select_concrete(
                        sel.concrete,
                        endif_then_value(pre, c, t).concrete,
                        endif_else_value(pre, c, t).concrete,
                    ),
                self.backend.gates@.len() == g0 + i2,
                self.backend.gates@.take(g0) == pre.backend.gates@,
                forall|t: int|
                    0 <= t < i2 ==> #[trigger] self.backend.gates@[g0 + t] == (Gate::Select {
                        s: sel.witness,
                        t: endif_then_value(pre, c, t).witness,
                        f: endif_else_value(pre, c, t).witness,
                        r: (w0 + t) as usize,
                    }),
                self.backend.wf(),
                self.memory@.len() == pre.memory@.len(),
                forall|t: int|
                    0 <= t < i2 ==> #[trigger] self.memory@[c.writes@[t].address as int]
                        == fresh_value(
                        select_concrete(
                            sel.concrete,
                            endif_then_value(pre, c, t).concrete,
                            endif_else_value(pre, c, t).concrete,
                        ),
                        w0 + t,
                        endif_then_value(pre, c, t).is_signed,
                        endif_then_value(pre, c, t).bit_length,
                    ),
                forall|jj: int|
                    0 <= jj < pre.memory@.len() && !(exists|t: int|
                        0 <= t < i2 && (#[trigger] c.writes@[t]).address == jj)
                        ==> #[trigger] self.memory@[jj] == pre.memory@[jj],
                values_ok(self.memory@, self.backend.values@),
                self.stack@ == pre.stack@,
                self.conditions@ == pre.conditions@.subrange(0, ci as int),
                self.frames@ == pre.frames@,
                self.loops@ == pre.loops@,
                self.outputs == pre.outputs,
                self.log@ == pre.log@,
                self.pc == pre.pc,
                self.program@ == pre.program@,
                self.globals_end == pre.globals_end,
            decreases nw - i2,
        {
            let ghost wsofar = self.backend.values@;
            let wr = frame.writes[i2];
            proof {
                vstd::arithmetic::power2::lemma2_to64();
                assert(VirtualMachine::cond_ok(
                    pre.conditions@[pre.conditions@.len() - 1],
                    pre.backend.values@,
                    pre.memory@.len() as int,
                ));
                assert(wr == c.writes@[i2 as int]);
                assert(wr.address < pre.memory@.len());
                assert(value_ok(wr.original, pre.backend.values@));
                match wr.then_value {
                    Some(tv) => {
                        assert(value_ok(tv, pre.backend.values@));
                    },
                    None => {},
                }
            }
            let tv: Value;
            let ev: Value;
            if in_else {
                tv = match wr.then_value {
                    Some(t) => t,
                    None => wr.original,
                };
                ev = self.memory[wr.address];
            } else {
                tv = self.memory[wr.address];
                ev = wr.original;
            }
            proof {
                assert(exists|t: int|
                    0 <= t < i2 && (#[trigger] c.writes@[t]).address == wr.address as int
                        ==> false) by {
                    assert(forall|t: int, u: int|
                        0 <= t < u < nw ==> (#[trigger] c.writes@[t]).address != (
                        #[trigger] c.writes@[u]).address);
                }
                assert(!(exists|t: int|
                    0 <= t < i2 && (#[trigger] c.writes@[t]).address == wr.address as int)) by {
                    assert(forall|t: int, u: int|
                        0 <= t < u < nw ==> (#[trigger] c.writes@[t]).address != (
                        #[trigger] c.writes@[u]).address);
                }
                assert(self.memory@[wr.address as int] == pre.memory@[wr.address as int]);
                assert(tv == endif_then_value(pre, c, i2 as int));
                assert(ev == endif_else_value(pre, c, i2 as int));
                assert(value_ok(tv, pre.backend.values@));
                assert(value_ok(ev, pre.backend.values@));
                assert(value_ok(tv, wsofar) && value_ok(ev, wsofar)) by {
                    assert(wsofar[tv.witness as int] == pre.backend.values@[tv.witness as int]);
                    assert(wsofar[ev.witness as int] == pre.backend.values@[ev.witness as int]);
                }
                assert(value_ok(sel, wsofar)) by {
                    assert(wsofar[sel.witness as int] == pre.backend.values@[sel.witness as int]);
                }
            }
            let cr: Option<i128> = match sel.concrete {
                Some(sv) => {
                    if sv == 1 {
                        tv.concrete
                    } else {
                        ev.concrete
                    }
                },
                None => None,
            };
            let wnew = self.backend.allocate(cr);
            let g = Gate::Select { s: sel.witness, t: tv.witness, f: ev.witness, r: wnew };
            proof {
                assert(gate_holds(g, self.backend.values@));
            }
            self.backend.push_gate(g);
            let merged = Value {
                concrete: cr,
                witness: wnew,
                bit_length: tv.bit_length,
                is_signed: tv.is_signed,
            };
            self.memory.set(wr.address, merged);
            proof {
                assert(self.backend.values@.take(w0) =~= wsofar.take(w0));
                assert(self.backend.gates@.take(g0) =~= pre.backend.gates@);
                assert(value_ok(merged, self.backend.values@));
                assert forall|mm: int| 0 <= mm < self.memory@.len() implies value_ok(
                    #[trigger] self.memory@[mm],
                    self.backend.values@,
                ) by {
                    if mm != wr.address {
                        assert(value_ok(self.memory@[mm], wsofar));
                        assert(self.backend.values@[self.memory@[mm].witness as int] == wsofar[
                            self.memory@[mm].witness as int]);
                    }
                }
            }
            i2 = i2 + 1;
        }
        // record the merged cells into the enclosing frame, if one is open
        if self.conditions.len() > 0 && nw > 0 {
            let pi = self.conditions.len() - 1;
            let ghost precs = Seq::new(
                nw as nat,
                |t: int|
                    BranchWrite {
                        address: c.writes@[t].address,
                        original: c.writes@[t].original,
                        then_value: None,
                    },
            );
            let ghost pws0 = self.conditions@[pi as int].writes@;
            let mut i3: usize = 0;
            while i3 < nw
                invariant
                    pre.wf(),
                    pre == *old(self),
                    pre.conditions@.len() > 0,
                    c == pre.conditions@.last(),
                    sel == c.selector,
                    value_ok(sel, pre.backend.values@),
                    sel.is_boolean(),
                    in_else == c.in_else,
                    fork == c.stack_fork,
                    frame.writes@ == c.writes@,
                    frame.then_stack@ == c.then_stack@,
                    fork + ns == pre.stack@.len(),
                    sn == pre.stack@.len(),
                    in_else ==> ns == c.then_stack@.len(),
                    !in_else ==> ns == 0,
                    forall|t: int|
                        0 <= t < ns ==> (#[trigger] c.then_stack@[t]).same_type(
                            pre.stack@[fork + t],
                        ),
                    w0 == pre.backend.values@.len() as int,
                    g0 == pre.backend.gates@.len() as int,
                    self.backend.values@.len() == w0 + nw,
                    self.backend.values@.take(w0) == pre.backend.values@,
                    forall|t: int|
                        0 <= t < nw ==> #[trigger] self.backend.values@[w0 + t]
                            == select_concrete(
                            sel.concrete,
                            endif_then_value(pre, c, t).concrete,
                            endif_else_value(pre, c, t).concrete,
                        ),
                    self.backend.gates@.len() == g0 + nw,
                    self.backend.gates@.take(g0) == pre.backend.gates@,
                    forall|t: int|
                        0 <= t < nw ==> #[trigger] self.backend.gates@[g0 + t] == (Gate::Select {
                            s: sel.witness,
                            t: endif_then_value(pre, c, t).witness,
                            f: endif_else_value(pre, c, t).witness,
                            r: (w0 + t) as usize,
                        }),
                    self.backend.wf(),
                    self.memory@.len() == pre.memory@.len(),
                    forall|t: int|
                        0 <= t < nw ==> #[trigger] self.memory@[c.writes@[t].address as int]
                            == fresh_value(
                            select_concrete(
                                sel.concrete,
                                endif_then_value(pre, c, t).concrete,
                                endif_else_value(pre, c, t).concrete,
                            ),
                            w0 + t,
                            endif_then_value(pre, c, t).is_signed,
                            endif_then_value(pre, c, t).bit_length,
                        ),
                    forall|jj: int|
                        0 <= jj < pre.memory@.len() && !(exists|t: int|
                            0 <= t < nw && (#[trigger] c.writes@[t]).address == jj)
                            ==> #[trigger] self.memory@[jj] == pre.memory@[jj],
                    values_ok(self.memory@, self.backend.values@),
                    self.stack@ == pre.stack@,
                    self.frames@ == pre.frames@,
                    self.loops@ == pre.loops@,
                    self.outputs == pre.outputs,
                    self.log@ == pre.log@,
                    self.pc == pre.pc,
                    self.program@ == pre.program@,
                    self.globals_end == pre.globals_end,
                    0 <= pi < self.conditions@.len(),
                    pi as int == self.conditions@.len() - 1,
                    pi as int == ci - 1,
                    i3 <= nw,
                    nw == c.writes@.len(),
                    precs.len() == nw,
                    forall|t: int|
                        0 <= t < nw ==> #[trigger] precs[t] == (BranchWrite {
                            address: c.writes@[t].address,
                            original: c.writes@[t].original,
                            then_value: None,
                        }),
                    self.conditions@[pi as int].writes@ == extended_writes(
                        pws0,
                        precs.take(i3 as int),
                    ),
                    forall|k: int|
                        0 <= k < pi ==> #[trigger] self.conditions@[k] == old(self).conditions@[k],
                    self.conditions@[pi as int].selector == old(self).conditions@[pi as int].selector,
                    self.conditions@[pi as int].live == old(self).conditions@[pi as int].live,
                    self.conditions@[pi as int].in_else == old(self).conditions@[pi as int].in_else,
                    self.conditions@[pi as int].stack_fork == old(self).conditions@[
                        pi as int].stack_fork,
                    self.conditions@[pi as int].then_stack@ == old(self).conditions@[
                        pi as int].then_stack@,
                    pws0 == old(self).conditions@[pi as int].writes@,
                decreases nw - i3,
            {
                let ghost pwsofar = self.conditions@[pi as int].writes@;
                let addr = frame.writes[i3].address;
                let orig = frame.writes[i3].original;
                let npw = self.conditions[pi].writes.len();
                let mut seen = false;
                let mut t: usize = 0;
                while t < npw
                    invariant
                        0 <= pi < self.conditions@.len(),
                        npw == self.conditions@[pi as int].writes@.len(),
                        t <= npw,
                        seen == exists|u: int|
                            0 <= u < t && (#[trigger] self.conditions@[pi as int].writes@[
                            u]).address == addr,
                    decreases npw - t,
                {
                    if self.conditions[pi].writes[t].address == addr {
                        seen = true;
                    }
                    t = t + 1;
                }
                if !seen {
                    let mut pf = self.conditions.remove(pi);
                    pf.writes.push(BranchWrite { address: addr, original: orig, then_value: None });
                    self.conditions.insert(pi, pf);
                    proof {
                        assert(self.conditions@.len() == pi + 1);
                        assert forall|k: int| 0 <= k < pi implies #[trigger] self.conditions@[k]
                            == old(self).conditions@[k] by {}
                    }
                }
                proof {
                    lemma_extended_writes_snoc(pws0, precs.take(i3 as int), precs[i3 as int]);
                    assert(precs.take(i3 + 1) =~= precs.take(i3 as int).push(precs[i3 as int]));
                    assert(precs[i3 as int].address == addr && precs[i3 as int].original == orig);
                    assert(self.conditions@[pi as int].writes@ == extended_writes(
                        pws0,
                        precs.take(i3 + 1),
                    ));
                }
                i3 = i3 + 1;
            }
            proof {
                assert(precs.take(nw as int) =~= precs);
            }
        }
        // merge the values the arms pushed
        let mut j2: usize = 0;
        while j2 < ns
            invariant
                pre.wf(),
                pre == *old(self),
                pre.conditions@.len() > 0,
                c == pre.conditions@.last(),
                sel == c.selector,
                value_ok(sel, pre.backend.values@),
                sel.is_boolean(),
                in_else ==> ns == c.then_stack@.len(),
                !in_else ==> ns == 0,
                fork + ns == pre.stack@.len(),
                sn == pre.stack@.len(),
                nw == c.writes@.len(),
                frame.writes@ == c.writes@,
                frame.then_stack@ == c.then_stack@,
                forall|t: int|
                    0 <= t < ns ==> (#[trigger] c.then_stack@[t]).same_type(
                        pre.stack@[fork + t],
                    ),
                j2 <= ns,
                w0 == pre.backend.values@.len() as int,
                g0 == pre.backend.gates@.len() as int,
                self.backend.values@.len() == w0 + nw + j2,
                self.backend.values@.take(w0) == pre.backend.values@,
                self.backend.gates@.len() == g0 + nw + j2,
                self.backend.gates@.take(g0) == pre.backend.gates@,
                self.backend.wf(),
                forall|t: int|
                    0 <= t < nw ==> #[trigger] self.backend.values@[w0 + t] == select_concrete(
                        sel.concrete,
                        endif_then_value(pre, c, t).concrete,
                        endif_else_value(pre, c, t).concrete,
                    ),
                forall|t: int|
                    0 <= t < j2 ==> #[trigger] self.backend.values@[w0 + nw + t]
                        == select_concrete(
                        sel.concrete,
                        c.then_stack@[t].concrete,
                        pre.stack@[fork + t].concrete,
                    ),
                forall|t: int|
                    0 <= t < nw ==> #[trigger] self.backend.gates@[g0 + t] == (Gate::Select {
                        s: sel.witness,
                        t: endif_then_value(pre, c, t).witness,
                        f: endif_else_value(pre, c, t).witness,
                        r: (w0 + t) as usize,
                    }),
                forall|t: int|
                    0 <= t < j2 ==> #[trigger] self.backend.gates@[g0 + nw + t] == (Gate::Select {
                        s: sel.witness,
                        t: c.then_stack@[t].witness,
                        f: pre.stack@[fork + t].witness,
                        r: (w0 + nw + t) as usize,
                    }),
                self.memory@.len() == pre.memory@.len(),
                forall|t: int|
                    0 <= t < nw ==> #[trigger] self.memory@[c.writes@[t].address as int]
                        == fresh_value(
                        select_concrete(
                            sel.concrete,
                            endif_then_value(pre, c, t).concrete,
                            endif_else_value(pre, c, t).concrete,
                        ),
                        w0 + t,
                        endif_then_value(pre, c, t).is_signed,
                        endif_then_value(pre, c, t).bit_length,
                    ),
                forall|jj: int|
                    0 <= jj < pre.memory@.len() && !(exists|t: int|
                        0 <= t < nw && (#[trigger] c.writes@[t]).address == jj)
                        ==> #[trigger] self.memory@[jj] == pre.memory@[jj],
                values_ok(self.memory@, self.backend.values@),
                self.stack@.len() == fork + ns,
                self.stack@.take(fork as int) == pre.stack@.take(fork as int),
                forall|t: int|
                    0 <= t < j2 ==> #[trigger] self.stack@[fork + t] == fresh_value(
                        select_concrete(
                            sel.concrete,
                            c.then_stack@[t].concrete,
                            pre.stack@[fork + t].concrete,
                        ),
                        w0 + nw + t,
                        c.then_stack@[t].is_signed,
                        c.then_stack@[t].bit_length,
                    ),
                forall|t: int|
                    j2 <= t < ns ==> #[trigger] self.stack@[fork + t] == pre.stack@[fork + t],
                self.conditions@.len() == pre.conditions@.len() - 1,
                forall|k: int|
                    0 <= k < pre.conditions@.len() - 2 ==> #[trigger] self.conditions@[k]
                        == pre.conditions@[k],
                pre.conditions@.len() >= 2 ==> {
                    let p0 = pre.conditions@[pre.conditions@.len() - 2];
                    let p1 = self.conditions@[pre.conditions@.len() - 2];
                    &&& p1.selector == p0.selector
                    &&& p1.live == p0.live
                    &&& p1.in_else == p0.in_else
                    &&& p1.stack_fork == p0.stack_fork
                    &&& p1.then_stack@ == p0.then_stack@
                    &&& p1.writes@ == extended_writes(
                        p0.writes@,
                        Seq::new(
                            nw as nat,
                            |t: int|
                                BranchWrite {
                                    address: c.writes@[t].address,
                                    original: c.writes@[t].original,
                                    then_value: None,
                                },
                        ),
                    )
                },
                self.frames@ == pre.frames@,
                self.loops@ == pre.loops@,
                self.outputs == pre.outputs,
                self.log@ == pre.log@,
                self.pc == pre.pc,
                self.program@ == pre.program@,
                self.globals_end == pre.globals_end,
            decreases ns - j2,
        {
            let ghost wsofar = self.backend.values@;
            let tv = frame.then_stack[j2];
            let ev = self.stack[fork + j2];
            proof {
                vstd::arithmetic::power2::lemma2_to64();
                assert(VirtualMachine::cond_ok(
                    pre.conditions@[pre.conditions@.len() - 1],
                    pre.backend.values@,
                    pre.memory@.len() as int,
                ));
                assert(tv == c.then_stack@[j2 as int]);
                assert(ev == pre.stack@[fork + j2]);
                assert(value_ok(tv, pre.backend.values@));
                assert(value_ok(ev, pre.backend.values@));
                assert(value_ok(tv, wsofar) && value_ok(ev, wsofar) && value_ok(sel, wsofar)) by {
                    assert(wsofar[tv.witness as int] == pre.backend.values@[tv.witness as int]);
                    assert(wsofar[ev.witness as int] == pre.backend.values@[ev.witness as int]);
                    assert(wsofar[sel.witness as int] == pre.backend.values@[sel.witness as int]);
                }
            }
            let cr: Option<i128> = match sel.concrete {
                Some(sv) => {
                    if sv == 1 {
                        tv.concrete
                    } else {
                        ev.concrete
                    }
                },
                None => None,
            };
            let wnew = self.backend.allocate(cr);
            let g = Gate::Select { s: sel.witness, t: tv.witness, f: ev.witness, r: wnew };
            proof {
                assert(gate_holds(g, self.backend.values@));
            }
            self.backend.push_gate(g);
            let merged = Value {
                concrete: cr,
                witness: wnew,
                bit_length: tv.bit_length,
                is_signed: tv.is_signed,
            };
            self.stack.set(fork + j2, merged);
            proof {
                assert(self.backend.values@.take(w0) =~= wsofar.take(w0));
                assert(self.backend.gates@.take(g0) =~= pre.backend.gates@);
                assert(self.stack@.take(fork as int) =~= pre.stack@.take(fork as int));
                assert forall|mm: int| 0 <= mm < self.memory@.len() implies value_ok(
                    #[trigger] self.memory@[mm],
                    self.backend.values@,
                ) by {
                    assert(value_ok(self.memory@[mm], wsofar));
                    assert(self.backend.values@[self.memory@[mm].witness as int] == wsofar[
                        self.memory@[mm].witness as int]);
                }
            }
            j2 = j2 + 1;
        }
        let wl = self.backend.values.len();
        proof {
            assert(wl == final(self).backend.values@.len());
            let ncond = pre.conditions@.len() as int;
            let recs = Seq::new(
                nw as nat,
                |t: int|
                    BranchWrite {
                        address: c.writes@[t].address,
                        original: c.writes@[t].original,
                        then_value: None,
                    },
            );
            if ncond >= 2 && nw == 0 {
                assert(recs =~= Seq::<BranchWrite>::empty());
                assert(extended_writes(pre.conditions@[ncond - 2].writes@, recs)
                    == pre.conditions@[ncond - 2].writes@);
            }
            lemma_endif_wf(pre, *final(self), ci as int);
        }
        Ok(())
    }
}

/// The machine invariant survives an `EndIf`.
#[verifier::rlimit(100)]
#[verifier::spinoff_prover]
proof fn lemma_endif_wf(pre: VirtualMachine, post: VirtualMachine, ci: int)
    requires
        pre.wf(),
        post.backend.wf(),
        ci == pre.conditions@.len() - 1,
        0 <= ci,
        rel_endif(pre, post, Ok::<(), RuntimeError>(())),
        values_ok(post.memory@, post.backend.values@),
        pre.backend.values@.is_prefix_of(post.backend.values@),
        post.backend.values@.len() <= usize::MAX,
    ensures
        post.wf(),
{
    let w0 = pre.backend.values@;
    let w2 = post.backend.values@;
    let c = pre.conditions@.last();
    let fork = c.stack_fork as int;
    let nw = c.writes@.len() as int;
    let ns = pre.stack@.len() - fork;
    assert forall|v: Value| value_ok(v, w0) implies value_ok(v, w2) by {
        assert(w2[v.witness as int] == w0[v.witness as int]);
    }
    assert(VirtualMachine::cond_ok(c, w0, pre.memory@.len() as int));
    assert forall|i: int| 0 <= i < post.stack@.len() implies value_ok(
        #[trigger] post.stack@[i],
        w2,
    ) by {
        if i < fork {
            assert(post.stack@[i] == post.stack@.take(fork)[i]);
            assert(pre.stack@.take(fork)[i] == pre.stack@[i]);
            assert(value_ok(pre.stack@[i], w0));
        } else {
            let j = i - fork;
            assert(post.stack@[fork + j] == fresh_value(
                select_concrete(
                    c.selector.concrete,
                    c.then_stack@[j].concrete,
                    pre.stack@[fork + j].concrete,
                ),
                w0.len() + nw + j,
                c.then_stack@[j].is_signed,
                c.then_stack@[j].bit_length,
            ));
            assert(value_ok(c.then_stack@[j], w0));
            assert(value_ok(pre.stack@[fork + j], w0));
            assert(w2[w0.len() + nw + j] == select_concrete(
                c.selector.concrete,
                c.then_stack@[j].concrete,
                pre.stack@[fork + j].concrete,
            ));
        }
    }
    match post.outputs {
        Some(ov) => {
            assert forall|i: int| 0 <= i < ov@.len() implies value_ok(#[trigger] ov@[i], w2) by {
                assert(value_ok(ov@[i], w0));
            }
        },
        None => {},
    }
    assert forall|k: int| 0 <= k < post.conditions@.len() implies VirtualMachine::cond_ok(
        #[trigger] post.conditions@[k],
        w2,
        post.memory@.len() as int,
    ) by {
        let c0 = pre.conditions@[k];
        assert(VirtualMachine::cond_ok(c0, w0, pre.memory@.len() as int));
        let c1 = post.conditions@[k];
        if k < ci - 1 {
            assert(c1 == c0);
            lemma_cond_ok_grow(c0, w0, w2, post.memory@.len() as int);
        } else {
            // the enclosing frame, with the merged cells recorded
            let recs = Seq::new(
                nw as nat,
                |i: int|
                    BranchWrite {
                        address: c.writes@[i].address,
                        original: c.writes@[i].original,
                        then_value: None,
                    },
            );
            assert(c1.selector == c0.selector && c1.live == c0.live && c1.then_stack@
                == c0.then_stack@);
            assert(c1.writes@ == extended_writes(c0.writes@, recs));
            lemma_cond_ok_grow(c0, w0, w2, post.memory@.len() as int);
            assert forall|i: int| 0 <= i < recs.len() implies {
                &&& (#[trigger] recs[i]).address < post.memory@.len()
                &&& value_ok(recs[i].original, w2)
                &&& recs[i].then_value is None
            } by {
                assert(c.writes@[i].address < pre.memory@.len());
                assert(value_ok(c.writes@[i].original, w0));
            }
            lemma_extended_writes_ok(
                c0.writes@,
                recs,
                w2,
                post.memory@.len() as int,
            );
            assert(VirtualMachine::cond_ok(c1, w2, post.memory@.len() as int));
        }
    }
    assert forall|k: int| 0 <= k < post.conditions@.len() implies (
    #[trigger] post.conditions@[k]).stack_fork <= post.stack@.len() && post.conditions@[
        k].stack_fork >= post.frame_floor() by {
        assert(post.conditions@[k].stack_fork == pre.conditions@[k].stack_fork);
        assert(pre.conditions@[k].stack_fork <= pre.conditions@.last().stack_fork);
    }
    assert forall|j: int, k: int| 0 <= j <= k < post.conditions@.len() implies (
    #[trigger] post.conditions@[j].stack_fork) <= (#[trigger] post.conditions@[k].stack_fork) by {
        assert(post.conditions@[j].stack_fork == pre.conditions@[j].stack_fork);
        assert(post.conditions@[k].stack_fork == pre.conditions@[k].stack_fork);
    }
    assert forall|i: int| 0 <= i < post.frames@.len() implies {
        &&& (#[trigger] post.frames@[i]).local_base <= post.memory@.len()
        &&& post.frames@[i].stack_height <= post.stack@.len()
        &&& post.frames@[i].local_base >= post.globals_end
    } by {
        assert(post.frames@[i] == pre.frames@[i]);
        assert(pre.frames@[i].stack_height <= pre.frames@.last().stack_height);
        assert(pre.conditions@.last().stack_fork >= pre.frame_floor());
    }
}

/// `cond_ok` survives growing the witness table.
proof fn lemma_cond_ok_grow(c: CondFrame, w0: Seq<Option<i128>>, w2: Seq<Option<i128>>, ml: int)
    requires
        VirtualMachine::cond_ok(c, w0, ml),
        w0.is_prefix_of(w2),
    ensures
        VirtualMachine::cond_ok(c, w2, ml),
{
    assert forall|v: Value| value_ok(v, w0) implies value_ok(v, w2) by {
        assert(w2[v.witness as int] == w0[v.witness as int]);
    }
    assert forall|i: int| 0 <= i < c.then_stack@.len() implies value_ok(
        #[trigger] c.then_stack@[i],
        w2,
    ) by {
        assert(value_ok(c.then_stack@[i], w0));
    }
    assert forall|i: int| 0 <= i < c.writes@.len() implies {
        &&& (#[trigger] c.writes@[i]).address < ml
        &&& value_ok(c.writes@[i].original, w2)
        &&& match c.writes@[i].then_value {
            Some(tv) => value_ok(tv, w2),
            None => true,
        }
    } by {
        assert(value_ok(c.writes@[i].original, w0));
        match c.writes@[i].then_value {
            Some(tv) => {
                assert(value_ok(tv, w0));
            },
            None => {},
        }
    }
}

/// `extended_writes` keeps a well-formed write list well formed: addresses
/// stay unique and in bounds, values stay backed.
proof fn lemma_extended_writes_ok(
    ws: Seq<BranchWrite>,
    recs: Seq<BranchWrite>,
    w: Seq<Option<i128>>,
    ml: int,
)
    requires
        forall|i: int, j: int|
            0 <= i < j < ws.len() ==> (#[trigger] ws[i]).address != (#[trigger] ws[j]).address,
        forall|i: int|
            0 <= i < ws.len() ==> (#[trigger] ws[i]).address < ml && value_ok(ws[i].original, w)
                && match ws[i].then_value {
                Some(tv) => value_ok(tv, w),
                None => true,
            },
        forall|i: int|
            0 <= i < recs.len() ==> (#[trigger] recs[i]).address < ml && value_ok(
                recs[i].original,
                w,
            ) && recs[i].then_value is None,
    ensures
        forall|i: int, j: int|
            0 <= i < j < extended_writes(ws, recs).len() ==> (#[trigger] extended_writes(
                ws,
                recs,
            )[i]).address != (#[trigger] extended_writes(ws, recs)[j]).address,
        forall|i: int|
            0 <= i < extended_writes(ws, recs).len() ==> (#[trigger] extended_writes(
                ws,
                recs,
            )[i]).address < ml && value_ok(extended_writes(ws, recs)[i].original, w) && match
                extended_writes(ws, recs)[i].then_value {
                Some(tv) => value_ok(tv, w),
                None => true,
            },
    decreases recs.len(),
{
    if recs.len() > 0 {
        let w0 = recs[0];
        let ws1 = if exists|i: int| 0 <= i < ws.len() && (#[trigger] ws[i]).address == w0.address {
            ws
        } else {
            ws.push(w0)
        };
        assert forall|i: int, j: int| 0 <= i < j < ws1.len() implies (
        #[trigger] ws1[i]).address != (#[trigger] ws1[j]).address by {
            if j < ws.len() {
                assert(ws1[i] == ws[i] && ws1[j] == ws[j]);
            } else {
                assert(ws1[i] == ws[i]);
            }
        }
        assert forall|i: int| 0 <= i < ws1.len() implies (#[trigger] ws1[i]).address < ml
            && value_ok(ws1[i].original, w) && match ws1[i].then_value {
            Some(tv) => value_ok(tv, w),
            None => true,
        } by {
            if i < ws.len() {
                assert(ws1[i] == ws[i]);
            }
        }
        assert forall|i: int| 0 <= i < recs.drop_first().len() implies (
        #[trigger] recs.drop_first()[i]).address < ml && value_ok(
            recs.drop_first()[i].original,
            w,
        ) && recs.drop_first()[i].then_value is None by {
            assert(recs.drop_first()[i] == recs[i + 1]);
        }
        lemma_extended_writes_ok(ws1, recs.drop_first(), w, ml);
    }
}


/// Transition of `Ref` / `RefGlobal`: the absolute data-stack address is
/// pushed as a constant wide unsigned value backed by a fresh witness.
pub open spec fn rel_ref(
    pre: VirtualMachine,
    post: VirtualMachine,
    abs: int,
    r: Result<(), RuntimeError>,
) -> bool {
    if abs >= pow2(62) || abs > usize::MAX {
        r == Err::<(), RuntimeError>(RuntimeError::Overflow) && unchanged_vm(pre, post)
    } else {
        let res = fresh_value(
            Some(abs as i128),
            pre.backend.values@.len() as int,
            false,
            crate::value::MAX_BIT_LENGTH,
        );
        &&& r == Ok::<(), RuntimeError>(())
        &&& post.stack@ == pre.stack@.push(res)
        &&& post.backend.values@ == pre.backend.values@.push(Some(abs as i128))
        &&& post.backend.gates@ == pre.backend.gates@
        &&& VirtualMachine::same_but_stack_backend(pre, post)
    }
}

/// The popped value resolved as a non-negative concrete index, if it has
/// one.
pub open spec fn index_of(v: Value) -> Option<int> {
    match v.concrete {
        Some(c) => if c >= 0 {
            Some(c as int)
        } else {
            None
        },
        None => None,
    }
}

impl VirtualMachine {
    /// Executes `Ref` or `RefGlobal`: pushes `base + offset` as a value.
    pub fn exec_ref(&mut self, base: usize, offset: usize) -> (r: Result<(), RuntimeError>)
        requires
            old(self).wf(),
            base <= old(self).memory@.len(),
            base + offset <= usize::MAX,
        ensures
            final(self).wf(),
            rel_ref(*old(self), *final(self), base + offset, r),
    {
        let abs = base + offset;
        proof {
            vstd::arithmetic::power2::lemma2_to64();
            lemma_pow2_62_63();
        }
        if abs as u64 >= 0x4000000000000000u64 {
            return Err(RuntimeError::Overflow);
        }
        let w = self.backend.allocate(Some(abs as i128));
        let res = Value {
            concrete: Some(abs as i128),
            witness: w,
            bit_length: crate::value::MAX_BIT_LENGTH,
            is_signed: false,
        };
        self.stack.push(res);
        proof {
            lemma_values_ok_grow(old(self).stack@, old(self).backend.values@, Some(abs as i128));
            assert(final(self).wf()) by {
                lemma_values_ok_grow(
                    old(self).memory@,
                    old(self).backend.values@,
                    Some(abs as i128),
                );
                lemma_vm_aux_grow(*old(self), *final(self), Some(abs as i128));
            }
        }
        Ok(())
    }

    /// Executes an absolute sequence store of `count` cells at
    /// `base + offset`.
    pub fn exec_store_seq(&mut self, base: usize, offset: usize, count: usize) -> (r: Result<
        (),
        RuntimeError,
    >)
        requires
            old(self).wf(),
            base <= old(self).memory@.len(),
        ensures
            final(self).wf(),
            rel_store_seq_abs(*old(self), *final(self), base + offset, count as int, r),
    {
        if self.conditions.len() > 0 {
            return Err(RuntimeError::UnbalancedConditions);
        }
        let floor = self.stack_floor();
        if self.stack.len() < count || self.stack.len() - count < floor {
            return Err(RuntimeError::StackUnderflow);
        }
        if offset > self.memory.len() - base || count > self.memory.len() - base - offset {
            return Err(RuntimeError::OutOfBounds);
        }
        let abs = base + offset;
        let ml = self.memory.len();
        let n = self.stack.len();
        let target = n - count;
        let mut j: usize = 0;
        while j < count
            invariant
                old(self).wf(),
                j <= count,
                ml == self.memory@.len(),
                abs + count <= ml,
                target + count == n,
                n == self.stack@.len(),
                self.stack@ == old(self).stack@,
                self.memory@.len() == old(self).memory@.len(),
                forall|t: int|
                    0 <= t < j ==> #[trigger] self.memory@[abs + t] == old(self).stack@[target
                        + t],
                forall|jj: int|
                    0 <= jj < self.memory@.len() && !(abs <= jj < abs + j)
                        ==> #[trigger] self.memory@[jj] == old(self).memory@[jj],
                values_ok(self.memory@, self.backend.values@),
                self.backend.values@ == old(self).backend.values@,
                self.backend.gates@ == old(self).backend.gates@,
                self.frames@ == old(self).frames@,
                self.conditions@ == old(self).conditions@,
                self.loops@ == old(self).loops@,
                self.outputs == old(self).outputs,
                self.log@ == old(self).log@,
                self.pc == old(self).pc,
                self.program@ == old(self).program@,
                self.globals_end == old(self).globals_end,
            decreases count - j,
        {
            let v = self.stack[target + j];
            proof {
                assert(value_ok(self.stack@[target + j], self.backend.values@));
            }
            self.memory.set(abs + j, v);
            proof {
                assert forall|mm: int| 0 <= mm < self.memory@.len() implies value_ok(
                    #[trigger] self.memory@[mm],
                    self.backend.values@,
                ) by {
                    if mm != abs + j {
                    }
                }
            }
            j = j + 1;
        }
        self.stack.truncate(target);
        proof {
            assert forall|i: int| 0 <= i < self.stack@.len() implies value_ok(
                #[trigger] self.stack@[i],
                self.backend.values@,
            ) by {
                assert(self.stack@[i] == old(self).stack@[i]);
            }
            assert(final(self).stack@ =~= old(self).stack@.take(n - count));
            assert forall|jj: int| 0 <= jj < final(self).memory@.len() implies
                #[trigger] final(self).memory@[jj] == if abs <= jj < abs + count {
                old(self).stack@[n - count + (jj - abs)]
            } else {
                old(self).memory@[jj]
            } by {
                if abs <= jj < abs + count {
                    assert(final(self).memory@[abs + (jj - abs)] == old(self).stack@[target + (jj
                        - abs)]);
                }
            }
        }
        Ok(())
    }

    /// Pops the top of the stack as a concrete non-negative index.
    fn pop_index(&mut self) -> (r: Result<usize, RuntimeError>)
        requires
            old(self).wf(),
        ensures
            final(self).wf(),
            match r {
                Ok(ix) => old(self).stack@.len() > old(self).spec_stack_floor() && index_of(
                    old(self).stack@.last(),
                ) == Some(ix as int) && final(self).stack@ == old(self).stack@.drop_last(),
                Err(e) => {
                    &&& (e == RuntimeError::StackUnderflow || e == RuntimeError::ExpectedConstant
                        || e == RuntimeError::OutOfBounds)
                    &&& (e == RuntimeError::StackUnderflow <==> old(self).stack@.len() <= old(
                        self,
                    ).spec_stack_floor())
                    &&& (e == RuntimeError::ExpectedConstant ==> index_of(
                        old(self).stack@.last(),
                    ) is None)
                    &&& (e == RuntimeError::OutOfBounds ==> match index_of(
                        old(self).stack@.last(),
                    ) {
                        Some(ix) => ix > usize::MAX,
                        None => false,
                    })
                    &&& final(self).stack@ == old(self).stack@
                },
            },
            Self::same_but_stack_backend(*old(self), *final(self)),
            final(self).backend.values@ == old(self).backend.values@,
            final(self).backend.gates@ == old(self).backend.gates@,
    {
        let floor = self.stack_floor();
        if self.stack.len() < 1 || self.stack.len() - 1 < floor {
            return Err(RuntimeError::StackUnderflow);
        }
        let v = self.stack[self.stack.len() - 1];
        proof {
            assert(value_ok(self.stack@[self.stack@.len() - 1], self.backend.values@));
            crate::value::lemma_value_bound(v);
        }
        match v.concrete {
            None => Err(RuntimeError::ExpectedConstant),
            Some(c) => {
                if c < 0 {
                    return Err(RuntimeError::ExpectedConstant);
                }
                if c > usize::MAX as i128 {
                    return Err(RuntimeError::OutOfBounds);
                }
                self.stack.pop();
                proof {
                    assert forall|i: int| 0 <= i < self.stack@.len() implies value_ok(
                        #[trigger] self.stack@[i],
                        self.backend.values@,
                    ) by {
                        assert(self.stack@[i] == old(self).stack@[i]);
                    }
                }
                Ok(c as usize)
            },
        }
    }
}

/// pow2(62) as a literal.
pub proof fn lemma_pow2_62_63()
    ensures
        pow2(62) == 0x4000000000000000,
        pow2(63) == 0x8000000000000000,
{
    vstd::arithmetic::power2::lemma2_to64_rest();
}


/// Transition of `Slice`: the popped concrete offset selects a window of
/// `len` values out of the `total` values below it; the block leaves the
/// stack and the window takes its place, in order. An unknown or negative
/// offset, a window outside the block, or too short a stack is fatal.
pub open spec fn rel_slice(
    pre: VirtualMachine,
    post: VirtualMachine,
    total: usize,
    len: usize,
    r: Result<(), RuntimeError>,
) -> bool {
    let floor = pre.spec_stack_floor();
    let n = pre.stack@.len() as int;
    if n < floor + 1 {
        r == Err::<(), RuntimeError>(RuntimeError::StackUnderflow) && unchanged_vm(pre, post)
    } else {
        match index_of(pre.stack@.last()) {
            None => r == Err::<(), RuntimeError>(RuntimeError::ExpectedConstant) && unchanged_vm(
                pre,
                post,
            ),
            Some(off) => if off > usize::MAX {
                r == Err::<(), RuntimeError>(RuntimeError::OutOfBounds) && unchanged_vm(pre, post)
            } else if len > total || off + len > total {
                r == Err::<(), RuntimeError>(RuntimeError::OutOfBounds) && consumed_only(
                    pre,
                    post,
                    1,
                )
            } else if n - 1 < floor + total {
                r == Err::<(), RuntimeError>(RuntimeError::StackUnderflow) && consumed_only(
                    pre,
                    post,
                    1,
                )
            } else {
                let base = n - 1 - total;
                &&& r == Ok::<(), RuntimeError>(())
                &&& post.stack@ == pre.stack@.take(base) + pre.stack@.subrange(
                    base + off,
                    base + off + len,
                )
                &&& post.backend.values@ == pre.backend.values@
                &&& post.backend.gates@ == pre.backend.gates@
                &&& VirtualMachine::same_but_stack_backend(pre, post)
            },
        }
    }
}

impl VirtualMachine {
    /// Checked `a + b` that reports an out-of-bounds address on overflow.
    fn checked_addr(a: usize, b: usize) -> (r: Result<usize, RuntimeError>)
        ensures
            match r {
                Ok(v) => v == a + b,
                Err(e) => e == RuntimeError::OutOfBounds && a + b > usize::MAX,
            },
    {
        if a > usize::MAX - b {
            Err(RuntimeError::OutOfBounds)
        } else {
            Ok(a + b)
        }
    }

    /// Executes `Slice`: pops the offset, then replaces the block of
    /// `total` values below it by its `len`-value window at that offset.
    pub fn exec_slice(&mut self, total: usize, len: usize) -> (r: Result<(), RuntimeError>)
        requires
            old(self).wf(),
        ensures
            final(self).wf(),
            rel_slice(*old(self), *final(self), total, len, r),
    {
        let offset = match self.pop_index() {
            Ok(v) => v,
            Err(e) => {
                return Err(e);
            },
        };
        proof {
            assert(self.stack@ =~= old(self).stack@.take(old(self).stack@.len() - 1));
        }
        if len > total || offset > total - len {
            return Err(RuntimeError::OutOfBounds);
        }
        let floor = self.stack_floor();
        if self.stack.len() < total || self.stack.len() - total < floor {
            return Err(RuntimeError::StackUnderflow);
        }
        let n = self.stack.len();
        let base_idx = n - total;
        let mut window: Vec<Value> = Vec::new();
        let mut j: usize = 0;
        while j < len
            invariant
                j <= len,
                offset + len <= total,
                base_idx + total == n,
                n == self.stack@.len(),
                window@ == self.stack@.subrange(
                    base_idx + offset as int,
                    base_idx + offset as int + j as int,
                ),
            decreases len - j,
        {
            window.push(self.stack[base_idx + offset + j]);
            proof {
                assert(window@ =~= self.stack@.subrange(
                    base_idx + offset as int,
                    base_idx + offset as int + j + 1,
                ));
            }
            j = j + 1;
        }
        self.stack.truncate(base_idx);
        let mut k: usize = 0;
        while k < len
            invariant
                k <= len,
                window@.len() == len,
                forall|t: int|
                    0 <= t < len ==> value_ok(#[trigger] window@[t], self.backend.values@),
                self.stack@ == old(self).stack@.drop_last().take(base_idx as int) + window@.take(
                    k as int,
                ),
                values_ok(self.stack@, self.backend.values@),
                self.memory@ == old(self).memory@,
                self.backend.values@ == old(self).backend.values@,
                self.backend.gates@ == old(self).backend.gates@,
                self.conditions@ == old(self).conditions@,
                self.frames@ == old(self).frames@,
                self.loops@ == old(self).loops@,
                self.outputs == old(self).outputs,
                self.log@ == old(self).log@,
                self.pc == old(self).pc,
                self.program@ == old(self).program@,
                self.globals_end == old(self).globals_end,
                self.stack@.len() == base_idx + k,
                base_idx >= self.spec_stack_floor(),
            decreases len - k,
        {
            self.stack.push(window[k]);
            proof {
                assert(self.stack@ =~= old(self).stack@.drop_last().take(base_idx as int)
                    + window@.take(k + 1));
            }
            k = k + 1;
        }
        proof {
            lemma_stack_shrink_wf(*old(self), *final(self));
            assert(window@.take(len as int) =~= window@);
            assert(old(self).stack@.drop_last().take(base_idx as int) =~= old(self).stack@.take(
                base_idx as int,
            ));
            assert(window@ =~= old(self).stack@.subrange(
                base_idx + offset as int,
                base_idx + offset as int + len as int,
            ));
        }
        Ok(())
    }
}

/// When only the evaluation stack changed and it stayed at or above the
/// floor, the machine invariant is preserved.
proof fn lemma_stack_shrink_wf(pre: VirtualMachine, post: VirtualMachine)
    requires
        pre.wf(),
        values_ok(post.stack@, post.backend.values@),
        post.stack@.len() >= pre.spec_stack_floor(),
        post.memory@ == pre.memory@,
        post.backend.values@ == pre.backend.values@,
        post.backend.gates@ == pre.backend.gates@,
        post.conditions@ == pre.conditions@,
        post.frames@ == pre.frames@,
        post.outputs == pre.outputs,
        post.globals_end == pre.globals_end,
    ensures
        post.wf(),
{
    assert forall|k: int| 0 <= k < post.conditions@.len() implies (
    #[trigger] post.conditions@[k]).stack_fork <= post.stack@.len() by {
        assert(pre.conditions@[k].stack_fork <= pre.conditions@.last().stack_fork);
    }
    assert forall|i: int| 0 <= i < post.frames@.len() implies (
    #[trigger] post.frames@[i]).stack_height <= post.stack@.len() by {
        assert(pre.frames@[i].stack_height <= pre.frames@.last().stack_height);
        if pre.conditions@.len() > 0 {
            assert(pre.conditions@.last().stack_fork >= pre.frame_floor());
        }
    }
}


/// The fetch-execute relation of one instruction: exactly the named
/// per-form transition of the instruction at `pre`'s program counter.
pub open spec fn stepped(
    pre: VirtualMachine,
    post: VirtualMachine,
    r: Result<bool, RuntimeError>,
) -> bool {
    match pre.program@[pre.pc as int] {
                Instruction::NoOperation | Instruction::FileMarker { .. }
                    | Instruction::FunctionMarker { .. } | Instruction::LineMarker { .. }
                    | Instruction::ColumnMarker { .. } => r == Ok::<bool, RuntimeError>(true)
                    && unchanged_vm(pre, post),
                Instruction::PushConst { value, is_signed, bit_length } => rel_push_const(
                    pre,
                    post,
                    value,
                    is_signed,
                    bit_length,
                    ok_unit(r),
                ),
                Instruction::Pop { count } => rel_pop(pre, post, count, ok_unit(r)),
                Instruction::Swap => rel_swap(pre, post, ok_unit(r)),
                Instruction::Load { address } => rel_load_abs(
                    pre,
                    post,
                    pre.spec_local_base() + address,
                    1,
                    ok_unit(r),
                ),
                Instruction::LoadSequence { address, len } => rel_load_abs(
                    pre,
                    post,
                    pre.spec_local_base() + address,
                    len as int,
                    ok_unit(r),
                ),
                Instruction::LoadGlobal { address } => rel_load_abs(
                    pre,
                    post,
                    address as int,
                    1,
                    ok_unit(r),
                ),
                Instruction::LoadSequenceGlobal { address, len } => rel_load_abs(
                    pre,
                    post,
                    address as int,
                    len as int,
                    ok_unit(r),
                ),
                Instruction::Store { address } => rel_store_abs(
                    pre,
                    post,
                    pre.spec_local_base() + address,
                    ok_unit(r),
                ),
                Instruction::StoreGlobal { address } => rel_store_abs(
                    pre,
                    post,
                    address as int,
                    ok_unit(r),
                ),
                Instruction::StoreSequence { address, len } => rel_store_seq_abs(
                    pre,
                    post,
                    pre.spec_local_base() + address,
                    len as int,
                    ok_unit(r),
                ),
                Instruction::StoreSequenceGlobal { address, len } => rel_store_seq_abs(
                    pre,
                    post,
                    address as int,
                    len as int,
                    ok_unit(r),
                ),
                Instruction::Ref { address } => rel_ref(
                    pre,
                    post,
                    pre.spec_local_base() + address,
                    ok_unit(r),
                ),
                Instruction::RefGlobal { address } => rel_ref(
                    pre,
                    post,
                    address as int,
                    ok_unit(r),
                ),
                Instruction::Add => rel_arith_linear(pre, post, true, ok_unit(r)),
                Instruction::Sub => rel_arith_linear(pre, post, false, ok_unit(r)),
                Instruction::Mul => rel_binary_gate(pre, post, GateOp::Mul, ok_unit(r)),
                Instruction::Div => rel_binary_gate(pre, post, GateOp::Div, ok_unit(r)),
                Instruction::Rem => rel_binary_gate(pre, post, GateOp::Rem, ok_unit(r)),
                Instruction::Neg => rel_neg(pre, post, ok_unit(r)),
                Instruction::Not => rel_not(pre, post, ok_unit(r)),
                Instruction::And => rel_binary_gate(pre, post, GateOp::And, ok_unit(r)),
                Instruction::Or => rel_binary_gate(pre, post, GateOp::Or, ok_unit(r)),
                Instruction::Xor => rel_binary_gate(pre, post, GateOp::Xor, ok_unit(r)),
                Instruction::Lt => rel_binary_gate(pre, post, GateOp::Lt, ok_unit(r)),
                Instruction::Le => rel_binary_gate(pre, post, GateOp::Le, ok_unit(r)),
                Instruction::Eq => rel_binary_gate(pre, post, GateOp::Eq, ok_unit(r)),
                Instruction::Ne => rel_binary_gate(pre, post, GateOp::Ne, ok_unit(r)),
                Instruction::Ge => rel_binary_gate(pre, post, GateOp::Ge, ok_unit(r)),
                Instruction::Gt => rel_binary_gate(pre, post, GateOp::Gt, ok_unit(r)),
                Instruction::Cast { is_signed, bit_length } => rel_cast(
                    pre,
                    post,
                    is_signed,
                    bit_length,
                    ok_unit(r),
                ),
                Instruction::If => rel_if(pre, post, ok_unit(r)),
                Instruction::Else => rel_else(pre, post, ok_unit(r)),
                Instruction::EndIf => rel_endif(pre, post, ok_unit(r)),
                Instruction::LoopBegin { iterations } => rel_loop_begin(
                    pre,
                    post,
                    iterations,
                    ok_unit(r),
                ),
                Instruction::LoopEnd => rel_loop_end(pre, post, ok_unit(r)),
                Instruction::Call { address, inputs } => rel_call(
                    pre,
                    post,
                    address,
                    inputs,
                    ok_unit(r),
                ),
                Instruction::Return { outputs } => rel_return(
                    pre,
                    post,
                    outputs,
                    ok_unit(r),
                ),
                Instruction::CallBuiltin { identifier, inputs, outputs } => rel_call_builtin(
                    pre,
                    post,
                    identifier,
                    inputs,
                    outputs,
                    ok_unit(r),
                ),
                Instruction::Assert => rel_assert(pre, post, ok_unit(r)),
                Instruction::Dbg { string, nargs } => rel_dbg(
                    pre,
                    post,
                    string@,
                    nargs,
                    ok_unit(r),
                ),
                Instruction::Exit { outputs } => rel_exit(pre, post, outputs, r),
                Instruction::Slice { total, len } => rel_slice(
                    pre,
                    post,
                    total,
                    len,
                    ok_unit(r),
                ),
                Instruction::LoadByIndex { address, bound } => rel_access(
                    pre,
                    post,
                    false,
                    true,
                    address,
                    Some(bound),
                    (AccessOp::Load { count: 1 }),
                    ok_unit(r),
                ),
                Instruction::LoadByIndexGlobal { address, bound } => rel_access(
                    pre,
                    post,
                    false,
                    false,
                    address,
                    Some(bound),
                    (AccessOp::Load { count: 1 }),
                    ok_unit(r),
                ),
                Instruction::StoreByIndex { address, bound } => rel_access(
                    pre,
                    post,
                    false,
                    true,
                    address,
                    Some(bound),
                    AccessOp::Store,
                    ok_unit(r),
                ),
                Instruction::LoadSequenceByIndex { address, bound, seq_len } => rel_access(
                    pre,
                    post,
                    false,
                    true,
                    address,
                    Some(bound),
                    (AccessOp::Load { count: seq_len }),
                    ok_unit(r),
                ),
                Instruction::LoadSequenceByIndexGlobal { address, bound, seq_len } => rel_access(
                    pre,
                    post,
                    false,
                    false,
                    address,
                    Some(bound),
                    (AccessOp::Load { count: seq_len }),
                    ok_unit(r),
                ),
                Instruction::StoreSequenceByIndex { address, bound, seq_len } => rel_access(
                    pre,
                    post,
                    false,
                    true,
                    address,
                    Some(bound),
                    (AccessOp::StoreSeq { count: seq_len }),
                    ok_unit(r),
                ),
                Instruction::LoadByRef => rel_access(
                    pre,
                    post,
                    true,
                    false,
                    0,
                    None,
                    (AccessOp::Load { count: 1 }),
                    ok_unit(r),
                ),
                Instruction::LoadSequenceByRef { len } => rel_access(
                    pre,
                    post,
                    true,
                    false,
                    0,
                    None,
                    (AccessOp::Load { count: len }),
                    ok_unit(r),
                ),
                Instruction::LoadByIndexByRef { bound } => rel_access(
                    pre,
                    post,
                    true,
                    false,
                    0,
                    Some(bound),
                    (AccessOp::Load { count: 1 }),
                    ok_unit(r),
                ),
                Instruction::LoadSequenceByIndexByRef { bound, seq_len } => rel_access(
                    pre,
                    post,
                    true,
                    false,
                    0,
                    Some(bound),
                    (AccessOp::Load { count: seq_len }),
                    ok_unit(r),
                ),
                Instruction::StoreByRef => rel_access(
                    pre,
                    post,
                    true,
                    false,
                    0,
                    None,
                    AccessOp::Store,
                    ok_unit(r),
                ),
                Instruction::StoreSequenceByRef { len } => rel_access(
                    pre,
                    post,
                    true,
                    false,
                    0,
                    None,
                    (AccessOp::StoreSeq { count: len }),
                    ok_unit(r),
                ),
                Instruction::StoreByIndexByRef { bound } => rel_access(
                    pre,
                    post,
                    true,
                    false,
                    0,
                    Some(bound),
                    AccessOp::Store,
                    ok_unit(r),
                ),
                Instruction::StoreSequenceByIndexByRef { bound, seq_len } => rel_access(
                    pre,
                    post,
                    true,
                    false,
                    0,
                    Some(bound),
                    (AccessOp::StoreSeq { count: seq_len }),
                    ok_unit(r),
                ),
            }
}

impl VirtualMachine {
    /// A fresh machine over a decoded program, with no globals yet.
    pub fn new(program: Vec<Instruction>) -> (r: VirtualMachine)
        ensures
            r.wf(),
            r.program@ == program@,
            r.pc == 0,
            r.stack@ == Seq::<Value>::empty(),
            r.memory@ == Seq::<Value>::empty(),
            r.globals_end == 0,
            r.frames@ == Seq::<CallFrame>::empty(),
            r.conditions@.len() == 0,
            r.loops@ == Seq::<LoopFrame>::empty(),
            r.backend.values@ == Seq::<Option<i128>>::empty(),
            r.backend.gates@ == Seq::<Gate>::empty(),
            r.outputs is None,
            r.log@ == Seq::<DbgRecord>::empty(),
    {
        VirtualMachine {
            program,
            pc: 0,
            stack: Vec::new(),
            memory: Vec::new(),
            globals_end: 0,
            frames: Vec::new(),
            conditions: Vec::new(),
            loops: Vec::new(),
            backend: Backend::new(),
            outputs: None,
            log: Vec::new(),
        }
    }

    /// Appends one program input to the global region, allocating its
    /// witness. Only meaningful before the run starts.
    pub fn push_input(&mut self, concrete: Option<i128>, is_signed: bool, bit_length: u8) -> (r:
        Result<(), RuntimeError>)
        requires
            old(self).wf(),
            old(self).frames@.len() == 0,
            old(self).globals_end == old(self).memory@.len(),
        ensures
            final(self).wf(),
            final(self).program@ == old(self).program@,
            final(self).pc == old(self).pc,
            final(self).frames@ == old(self).frames@,
            final(self).globals_end == final(self).memory@.len(),
            match r {
                Ok(()) => {
                    &&& crate::value::scalar_type_wf(is_signed, bit_length)
                    &&& (match concrete {
                        Some(c) => scalar_in_range(is_signed, bit_length, c),
                        None => true,
                    })
                    &&& final(self).memory@ == old(self).memory@.push(
                        fresh_value(
                            concrete,
                            old(self).backend.values@.len() as int,
                            is_signed,
                            bit_length,
                        ),
                    )
                    &&& final(self).backend.values@ == old(self).backend.values@.push(concrete)
                    &&& final(self).stack@ == old(self).stack@
                    &&& final(self).conditions@ == old(self).conditions@
                    &&& final(self).loops@ == old(self).loops@
                    &&& final(self).outputs == old(self).outputs
                },
                Err(e) => e == RuntimeError::TypeMismatch && unchanged_vm(*old(self), *final(self))
                    && final(self).globals_end == old(self).globals_end,
            },
    {
        if !crate::value::check_scalar_type(is_signed, bit_length) {
            return Err(RuntimeError::TypeMismatch);
        }
        if let Some(c) = concrete {
            if !crate::value::check_scalar_range(is_signed, bit_length, c) {
                return Err(RuntimeError::TypeMismatch);
            }
        }
        let w = self.backend.allocate(concrete);
        let v = Value { concrete, witness: w, bit_length, is_signed };
        self.memory.push(v);
        self.globals_end = self.memory.len();
        proof {
            lemma_values_ok_grow(old(self).stack@, old(self).backend.values@, concrete);
            lemma_values_ok_grow(old(self).memory@, old(self).backend.values@, concrete);
            assert(final(self).memory@ =~= old(self).memory@.push(v));
            match &self.outputs {
                Some(ov) => {
                    assert forall|i: int| 0 <= i < ov@.len() implies value_ok(
                        #[trigger] ov@[i],
                        self.backend.values@,
                    ) by {
                        assert(value_ok(ov@[i], old(self).backend.values@));
                    }
                },
                None => {},
            }
            assert forall|k: int| 0 <= k < self.conditions@.len() implies
                VirtualMachine::cond_ok(
                #[trigger] self.conditions@[k],
                self.backend.values@,
                self.memory@.len() as int,
            ) by {
                lemma_cond_ok_grow(
                    self.conditions@[k],
                    old(self).backend.values@,
                    self.backend.values@,
                    old(self).memory@.len() as int,
                );
            }
        }
        Ok(())
    }

    /// Fetches and executes the instruction at `pc`, leaving `pc` on the
    /// jump target for the jumping forms and untouched otherwise (the run
    /// loop advances it). `Ok(false)` means the program exited.
    ///
    /// Every form's exact transition is the named relation; the by-index,
    /// by-reference and slicing storage forms are specified by the storage
    /// helpers they resolve to, and carry here only their frame and
    /// invariant guarantees.
    #[verifier::rlimit(100)]
    #[verifier::spinoff_prover]
    pub fn step(&mut self) -> (r: Result<bool, RuntimeError>)
        requires
            old(self).wf(),
            old(self).pc < old(self).program@.len(),
            old(self).program@[old(self).pc as int].wf(),
            old(self).pc < usize::MAX,
        ensures
            final(self).wf(),
            final(self).program@ == old(self).program@,
            r == Ok::<bool, RuntimeError>(false) ==> final(self).outputs is Some,
            !(old(self).program@[old(self).pc as int] is Exit) && r is Ok ==> r == Ok::<
                bool,
                RuntimeError,
            >(true),
            stepped(*old(self), *final(self), r),
    {
        let i = &self.program[self.pc];
        match i {
            Instruction::NoOperation | Instruction::FileMarker { .. }
                | Instruction::FunctionMarker { .. } | Instruction::LineMarker { .. }
                | Instruction::ColumnMarker { .. } => Ok(true),
            Instruction::PushConst { value, is_signed, bit_length } => {
                let (value, is_signed, bit_length) = (*value, *is_signed, *bit_length);
                to_step(self.exec_push_const(value, is_signed, bit_length))
            },
            Instruction::Pop { count } => {
                let count = *count;
                to_step(self.exec_pop(count))
            },
            Instruction::Swap => to_step(self.exec_swap()),
            Instruction::Load { address } => {
                let address = *address;
                let base = self.local_base();
                to_step(self.exec_load(base, address, 1))
            },
            Instruction::LoadSequence { address, len } => {
                let (address, len) = (*address, *len);
                let base = self.local_base();
                to_step(self.exec_load(base, address, len))
            },
            Instruction::LoadGlobal { address } => {
                let address = *address;
                to_step(self.exec_load(0, address, 1))
            },
            Instruction::LoadSequenceGlobal { address, len } => {
                let (address, len) = (*address, *len);
                to_step(self.exec_load(0, address, len))
            },
            Instruction::Store { address } => {
                let address = *address;
                let base = self.local_base();
                to_step(self.exec_store(base, address))
            },
            Instruction::StoreGlobal { address } => {
                let address = *address;
                to_step(self.exec_store(0, address))
            },
            Instruction::StoreSequence { address, len } => {
                let (address, len) = (*address, *len);
                let base = self.local_base();
                to_step(self.exec_store_seq(base, address, len))
            },
            Instruction::StoreSequenceGlobal { address, len } => {
                let (address, len) = (*address, *len);
                to_step(self.exec_store_seq(0, address, len))
            },
            Instruction::Ref { address } => {
                let address = *address;
                let base = self.local_base();
                if address > usize::MAX - base {
                    return Err(RuntimeError::Overflow);
                }
                proof {
                    vstd::arithmetic::power2::lemma2_to64();
                    lemma_pow2_62_63();
                }
                to_step(self.exec_ref(base, address))
            },
            Instruction::RefGlobal { address } => {
                let address = *address;
                to_step(self.exec_ref(0, address))
            },
            Instruction::Add => to_step(self.exec_arith_linear(true)),
            Instruction::Sub => to_step(self.exec_arith_linear(false)),
            Instruction::Mul => to_step(self.exec_binary_gate(GateOp::Mul)),
            Instruction::Div => to_step(self.exec_binary_gate(GateOp::Div)),
            Instruction::Rem => to_step(self.exec_binary_gate(GateOp::Rem)),
            Instruction::Neg => to_step(self.exec_neg()),
            Instruction::Not => to_step(self.exec_not()),
            Instruction::And => to_step(self.exec_binary_gate(GateOp::And)),
            Instruction::Or => to_step(self.exec_binary_gate(GateOp::Or)),
            Instruction::Xor => to_step(self.exec_binary_gate(GateOp::Xor)),
            Instruction::Lt => to_step(self.exec_binary_gate(GateOp::Lt)),
            Instruction::Le => to_step(self.exec_binary_gate(GateOp::Le)),
            Instruction::Eq => to_step(self.exec_binary_gate(GateOp::Eq)),
            Instruction::Ne => to_step(self.exec_binary_gate(GateOp::Ne)),
            Instruction::Ge => to_step(self.exec_binary_gate(GateOp::Ge)),
            Instruction::Gt => to_step(self.exec_binary_gate(GateOp::Gt)),
            Instruction::Cast { is_signed, bit_length } => {
                let (is_signed, bit_length) = (*is_signed, *bit_length);
                to_step(self.exec_cast(is_signed, bit_length))
            },
            Instruction::If => to_step(self.exec_if()),
            Instruction::Else => to_step(self.exec_else()),
            Instruction::EndIf => to_step(self.exec_endif()),
            Instruction::LoopBegin { iterations } => {
                let iterations = *iterations;
                to_step(self.exec_loop_begin(iterations))
            },
            Instruction::LoopEnd => to_step(self.exec_loop_end()),
            Instruction::Call { address, inputs } => {
                let (address, inputs) = (*address, *inputs);
                to_step(self.exec_call(address, inputs))
            },
            Instruction::Return { outputs } => {
                let outputs = *outputs;
                to_step(self.exec_return(outputs))
            },
            Instruction::CallBuiltin { identifier, inputs, outputs } => {
                let (identifier, inputs, outputs) = (*identifier, *inputs, *outputs);
                to_step(self.exec_call_builtin(identifier, inputs, outputs))
            },
            Instruction::Assert => to_step(self.exec_assert()),
            Instruction::Dbg { string, nargs } => {
                let nargs = *nargs;
                let text = string.clone();
                to_step(self.exec_dbg(&text, nargs))
            },
            Instruction::Exit { outputs } => {
                let outputs = *outputs;
                self.exec_exit(outputs)
            },
            Instruction::Slice { total, len } => {
                let (total, len) = (*total, *len);
                to_step(self.exec_slice(total, len))
            },
            Instruction::LoadByIndex { address, bound } => {
                let (address, bound) = (*address, *bound);
                to_step(self.exec_access(false, true, address, Some(bound), AccessOp::Load {
                    count: 1,
                }))
            },
            Instruction::LoadByIndexGlobal { address, bound } => {
                let (address, bound) = (*address, *bound);
                to_step(self.exec_access(false, false, address, Some(bound), AccessOp::Load {
                    count: 1,
                }))
            },
            Instruction::StoreByIndex { address, bound } => {
                let (address, bound) = (*address, *bound);
                to_step(self.exec_access(false, true, address, Some(bound), AccessOp::Store))
            },
            Instruction::LoadSequenceByIndex { address, bound, seq_len } => {
                let (address, bound, seq_len) = (*address, *bound, *seq_len);
                to_step(self.exec_access(false, true, address, Some(bound), AccessOp::Load {
                    count: seq_len,
                }))
            },
            Instruction::LoadSequenceByIndexGlobal { address, bound, seq_len } => {
                let (address, bound, seq_len) = (*address, *bound, *seq_len);
                to_step(self.exec_access(false, false, address, Some(bound), AccessOp::Load {
                    count: seq_len,
                }))
            },
            Instruction::StoreSequenceByIndex { address, bound, seq_len } => {
                let (address, bound, seq_len) = (*address, *bound, *seq_len);
                to_step(self.exec_access(false, true, address, Some(bound), AccessOp::StoreSeq {
                    count: seq_len,
                }))
            },
            Instruction::LoadByRef => to_step(
                self.exec_access(true, false, 0, None, AccessOp::Load { count: 1 }),
            ),
            Instruction::LoadSequenceByRef { len } => {
                let len = *len;
                to_step(self.exec_access(true, false, 0, None, AccessOp::Load { count: len }))
            },
            Instruction::LoadByIndexByRef { bound } => {
                let bound = *bound;
                to_step(self.exec_access(true, false, 0, Some(bound), AccessOp::Load {
                    count: 1,
                }))
            },
            Instruction::LoadSequenceByIndexByRef { bound, seq_len } => {
                let (bound, seq_len) = (*bound, *seq_len);
                to_step(self.exec_access(true, false, 0, Some(bound), AccessOp::Load {
                    count: seq_len,
                }))
            },
            Instruction::StoreByRef => to_step(
                self.exec_access(true, false, 0, None, AccessOp::Store),
            ),
            Instruction::StoreSequenceByRef { len } => {
                let len = *len;
                to_step(self.exec_access(true, false, 0, None, AccessOp::StoreSeq { count: len }))
            },
            Instruction::StoreByIndexByRef { bound } => {
                let bound = *bound;
                to_step(self.exec_access(true, false, 0, Some(bound), AccessOp::Store))
            },
            Instruction::StoreSequenceByIndexByRef { bound, seq_len } => {
                let (bound, seq_len) = (*bound, *seq_len);
                to_step(self.exec_access(true, false, 0, Some(bound), AccessOp::StoreSeq {
                    count: seq_len,
                }))
            },
        }
    }

    /// Pops an index, checks it against the declared aggregate size, and
    /// resolves the scaled offset of a sequence element.
    fn indexed_offset(&mut self, address: usize, bound: usize, seq_len: usize) -> (r: Result<
        usize,
        RuntimeError,
    >)
        requires
            old(self).wf(),
        ensures
            final(self).wf(),
            rel_indexed_offset(
                *old(self),
                *final(self),
                address as int,
                bound as int,
                seq_len as int,
                r,
            ),
    {
        let ix = match self.pop_index() {
            Ok(v) => v,
            Err(e) => {
                return Err(e);
            },
        };
        proof {
            assert((ix as u128 as int + 1) * (seq_len as u128 as int)
                < 0x100000000000000000000000000000000) by (nonlinear_arith)
                requires
                    ix as u128 <= 0xFFFFFFFFFFFFFFFFu64,
                    seq_len as u128 <= 0xFFFFFFFFFFFFFFFFu64,
            ;
        }
        let need: u128 = (ix as u128 + 1) * (seq_len as u128);
        if need > bound as u128 {
            return Err(RuntimeError::OutOfBounds);
        }
        proof {
            assert((ix as int) * (seq_len as int) + (seq_len as int) == (ix as int + 1) * (
            seq_len as int)) by (nonlinear_arith);
            assert((ix as int) * (seq_len as int) >= 0) by (nonlinear_arith);
        }
        let scaled: usize = ix * seq_len;
        let off = match Self::checked_addr(address, scaled) {
            Ok(v) => v,
            Err(e) => {
                return Err(e);
            },
        };
        Ok(off)
    }
}

/// Lifts a unit step result into the run result.
fn to_step(r: Result<(), RuntimeError>) -> (s: Result<bool, RuntimeError>)
    ensures
        s == ok_unit_inv(r),
        ok_unit(s) == r,
{
    match r {
        Ok(u) => {
            proof {
                assert(r == Ok::<(), RuntimeError>(u));
            }
            Ok(true)
        },
        Err(e) => Err(e),
    }
}

/// The unit view of a continuing step result.
pub open spec fn ok_unit(r: Result<bool, RuntimeError>) -> Result<(), RuntimeError> {
    match r {
        Ok(_) => Ok(()),
        Err(e) => Err(e),
    }
}

/// The continuing step view of a unit result.
pub open spec fn ok_unit_inv(r: Result<(), RuntimeError>) -> Result<bool, RuntimeError> {
    match r {
        Ok(_) => Ok(true),
        Err(e) => Err(e),
    }
}


impl VirtualMachine {
    /// Runs from the current instruction until `Exit`, a fatal error, or the
    /// end of the program. On success the outputs are the `Exit` values.
    /// The per-instruction semantics is `step`'s contract; the run loop owns
    /// only the program-counter bookkeeping.
    pub fn run(&mut self, fuel: usize) -> (r: Result<(), RuntimeError>)
        requires
            old(self).wf(),
            forall|k: int|
                0 <= k < old(self).program@.len() ==> (#[trigger] old(self).program@[k]).wf(),
        ensures
            final(self).wf(),
            final(self).program@ == old(self).program@,
            r is Ok ==> final(self).outputs is Some,
            run_steps(*old(self), *final(self), fuel as nat, r),
    {
        let mut left = fuel;
        loop
            invariant
                self.wf(),
                self.program@ == old(self).program@,
                forall|k: int|
                    0 <= k < self.program@.len() ==> (#[trigger] self.program@[k]).wf(),
                left <= fuel,
                forall|p2: VirtualMachine, r2: Result<(), RuntimeError>|
                    #[trigger] run_steps(*self, p2, left as nat, r2) ==> run_steps(
                        *old(self),
                        p2,
                        fuel as nat,
                        r2,
                    ),
            decreases left,
        {
            let ghost at_entry = *self;
            if left == 0 {
                proof {
                    assert(unchanged_vm(at_entry, at_entry));
                    assert(run_steps(at_entry, at_entry, 0, Err(RuntimeError::OutOfFuel)));
                }
                return Err(RuntimeError::OutOfFuel);
            }
            if self.pc >= self.program.len() {
                proof {
                    assert(unchanged_vm(at_entry, at_entry));
                    assert(run_steps(
                        at_entry,
                        at_entry,
                        left as nat,
                        Err(RuntimeError::UnexpectedEnd),
                    ));
                }
                return Err(RuntimeError::UnexpectedEnd);
            }
            left = left - 1;
            let ghost instr = self.program@[self.pc as int];
            let jumps = match &self.program[self.pc] {
                Instruction::Call { .. } | Instruction::Return { .. } | Instruction::LoopEnd =>
                    true,
                _ => false,
            };
            proof {
                assert(jumps == is_jump(instr));
            }
            match self.step() {
                Err(e) => {
                    proof {
                        assert(stepped(at_entry, *self, Err(e)));
                        assert(unchanged_vm(*self, *self));
                        assert(run_steps(at_entry, *self, (left + 1) as nat, Err(e)));
                    }
                    return Err(e);
                },
                Ok(false) => {
                    proof {
                        assert(stepped(at_entry, *self, Ok(false)));
                        assert(unchanged_vm(*self, *self));
                        assert(run_steps(at_entry, *self, (left + 1) as nat, Ok(())));
                    }
                    return Ok(());
                },
                Ok(true) => {
                    let ghost mid = *self;
                    if !jumps {
                        self.pc = self.pc + 1;
                    }
                    proof {
                        assert(stepped(at_entry, mid, Ok(true)));
                        if jumps {
                            assert(unchanged_vm(mid, *self));
                        } else {
                            assert(unchanged_but_pc(mid, *self));
                        }
                        assert(advanced(instr, mid, *self));
                        assert forall|p2: VirtualMachine, r2: Result<(), RuntimeError>|
                            #[trigger] run_steps(*self, p2, left as nat, r2) implies run_steps(
                            *old(self),
                            p2,
                            fuel as nat,
                            r2,
                        ) by {
                            assert(advanced(at_entry.program@[at_entry.pc as int], mid, *self));
                            assert(run_steps(at_entry, p2, (left + 1) as nat, r2));
                        }
                    }
                },
            }
        }
    }
}


/// The program-counter-driving forms: they set `pc` themselves, and the
/// run loop leaves it alone.
pub open spec fn is_jump(i: Instruction) -> bool {
    i is Call || i is Return || i is LoopEnd
}

/// Everything but the program counter is as it was.
pub open spec fn unchanged_but_pc(a: VirtualMachine, b: VirtualMachine) -> bool {
    &&& b.stack@ == a.stack@
    &&& b.memory@ == a.memory@
    &&& b.backend.values@ == a.backend.values@
    &&& b.backend.gates@ == a.backend.gates@
    &&& b.program@ == a.program@
    &&& b.globals_end == a.globals_end
    &&& b.frames@ == a.frames@
    &&& b.conditions@ == a.conditions@
    &&& b.loops@ == a.loops@
    &&& b.outputs == a.outputs
    &&& b.log@ == a.log@
}

/// The run loop's program-counter bookkeeping after a continuing step of
/// instruction `i`.
pub open spec fn advanced(i: Instruction, mid: VirtualMachine, post: VirtualMachine) -> bool {
    if is_jump(i) {
        unchanged_vm(mid, post)
    } else {
        unchanged_but_pc(mid, post) && post.pc == mid.pc + 1
    }
}

/// The whole-run relation, `fuel` steps at most: fetch and execute at the
/// program counter, advance it for the non-jumping forms, and stop at an
/// `Exit`, a fatal error, the end of the program, or an exhausted budget.
pub open spec fn run_steps(
    pre: VirtualMachine,
    post: VirtualMachine,
    fuel: nat,
    r: Result<(), RuntimeError>,
) -> bool
    decreases fuel,
{
    if fuel == 0 {
        r == Err::<(), RuntimeError>(RuntimeError::OutOfFuel) && unchanged_vm(pre, post)
    } else if pre.pc >= pre.program@.len() {
        r == Err::<(), RuntimeError>(RuntimeError::UnexpectedEnd) && unchanged_vm(pre, post)
    } else {
        exists|mid: VirtualMachine, sr: Result<bool, RuntimeError>|
            {
                &&& #[trigger] stepped(pre, mid, sr)
                &&& match sr {
                    Err(e) => r == Err::<(), RuntimeError>(e) && unchanged_vm(mid, post),
                    Ok(false) => r == Ok::<(), RuntimeError>(()) && unchanged_vm(mid, post),
                    Ok(true) => exists|mid2: VirtualMachine|
                        #[trigger] advanced(pre.program@[pre.pc as int], mid, mid2) && run_steps(
                            mid2,
                            post,
                            (fuel - 1) as nat,
                            r,
                        ),
                }
            }
    }
}

/// Branch merge correctness: for every boolean selector and every pair of
/// in-range constants, executing `if c { a } else { b }` on the machine —
/// push the selector, fork, push `a`, flip, push `b`, merge — leaves exactly
/// one value, whose concrete half is `a` when `c` is set and `b` otherwise,
/// whose witness carries that same concrete value, and whose selection gate
/// is recorded whichever way the selector went: the constraint shape does
/// not depend on `c`.
pub fn branch_select(c: bool, a: i128, b: i128, is_signed: bool, bit_length: u8) -> (r: (
    Value,
    VirtualMachine,
))
    requires
        crate::value::scalar_type_wf(is_signed, bit_length),
        bit_length != BOOLEAN_BIT_LENGTH,
        scalar_in_range(is_signed, bit_length, a),
        scalar_in_range(is_signed, bit_length, b),
    ensures
        r.0.concrete == Some(
            if c {
                a
            } else {
                b
            },
        ),
        r.1.wf(),
        (r.0.witness as int) < r.1.backend.values@.len(),
        r.1.backend.values@[r.0.witness as int] == Some(
            if c {
                a
            } else {
                b
            },
        ),
        r.1.backend.gates@.len() == 2,
        r.1.stack@.len() == 1,
        r.1.stack@[0] == r.0,
        r.1.conditions@.len() == 0,
        r.1.frames@.len() == 0,
{
    let program: Vec<Instruction> = Vec::new();
    let mut vm = VirtualMachine::new(program);
    proof {
        vstd::arithmetic::power2::lemma2_to64();
    }
    let rc = vm.exec_push_const(
        if c {
            1
        } else {
            0
        },
        false,
        1,
    );
    let r1 = vm.exec_if();
    let r2 = vm.exec_push_const(a, is_signed, bit_length);
    let r3 = vm.exec_else();
    let r4 = vm.exec_push_const(b, is_signed, bit_length);
    let r5 = vm.exec_endif();
    proof {
        assert(r5 is Ok);
        assert(vm.stack@.len() == 1);
    }
    let out = vm.stack[0];
    (out, vm)
}

/// Conjunction gating: an assertion of the false bit nested inside a branch
/// fails the program exactly when the branch's selector is set at run time;
/// under the unset selector the same assertion passes, and in either case
/// the recorded constraint shape is the same.
pub fn assert_under_branch(c: bool) -> (r: (Result<(), RuntimeError>, VirtualMachine))
    ensures
        r.0 == if c {
            Err::<(), RuntimeError>(RuntimeError::AssertionFailed)
        } else {
            Ok::<(), RuntimeError>(())
        },
        r.1.wf(),
        r.1.frames@.len() == 0,
        r.1.conditions@.len() == if c {
            1int
        } else {
            0int
        },
{
    let program: Vec<Instruction> = Vec::new();
    let mut vm = VirtualMachine::new(program);
    proof {
        vstd::arithmetic::power2::lemma2_to64();
    }
    let rc = vm.exec_push_const(
        if c {
            1
        } else {
            0
        },
        false,
        1,
    );
    let r1 = vm.exec_if();
    let r2 = vm.exec_push_const(0, false, 1);
    let r3 = vm.exec_assert();
    if c {
        proof {
            assert(r3 == Err::<(), RuntimeError>(RuntimeError::AssertionFailed));
        }
        return (Err(RuntimeError::AssertionFailed), vm);
    }
    proof {
        assert(r3 is Ok);
    }
    let r4 = vm.exec_endif();
    proof {
        assert(r4 is Ok);
    }
    (Ok(()), vm)
}

/// Sequence atomicity: storing `n` values at a pre-allocated base and
/// loading them back returns exactly the `n` values in their original
/// order, for every base, count and contents.
pub fn store_load_sequence(vm: &mut VirtualMachine, base_offset: usize, count: usize) -> (r:
    Result<(), RuntimeError>)
    requires
        old(vm).wf(),
    ensures
        final(vm).wf(),
        ({
            let n = old(vm).stack@.len() as int;
            let abs = old(vm).spec_local_base() + base_offset;
            if old(vm).conditions@.len() > 0 {
                r == Err::<(), RuntimeError>(RuntimeError::UnbalancedConditions) && unchanged_vm(
                    *old(vm),
                    *final(vm),
                )
            } else if n < old(vm).spec_stack_floor() + count {
                r == Err::<(), RuntimeError>(RuntimeError::StackUnderflow) && unchanged_vm(
                    *old(vm),
                    *final(vm),
                )
            } else if abs + count > old(vm).memory@.len() {
                r == Err::<(), RuntimeError>(RuntimeError::OutOfBounds) && unchanged_vm(
                    *old(vm),
                    *final(vm),
                )
            } else {
                &&& r == Ok::<(), RuntimeError>(())
                &&& final(vm).stack@ == old(vm).stack@
                &&& final(vm).memory@.len() == old(vm).memory@.len()
                &&& (forall|j: int|
                    0 <= j < old(vm).memory@.len() ==> #[trigger] final(vm).memory@[j] == if abs
                        <= j < abs + count {
                        old(vm).stack@[n - count + (j - abs)]
                    } else {
                        old(vm).memory@[j]
                    })
                &&& final(vm).backend.values@ == old(vm).backend.values@
                &&& final(vm).backend.gates@ == old(vm).backend.gates@
                &&& final(vm).conditions@ == old(vm).conditions@
                &&& final(vm).frames@ == old(vm).frames@
                &&& final(vm).loops@ == old(vm).loops@
                &&& final(vm).outputs == old(vm).outputs
                &&& final(vm).log@ == old(vm).log@
                &&& final(vm).pc == old(vm).pc
                &&& final(vm).program@ == old(vm).program@
                &&& final(vm).globals_end == old(vm).globals_end
            }
        }),
{
    let base = vm.local_base();
    let r1 = vm.exec_store_seq(base, base_offset, count);
    match r1 {
        Err(e) => Err(e),
        Ok(()) => {
            let base2 = vm.local_base();
            let r2 = vm.exec_load(base2, base_offset, count);
            proof {
                assert(r2 is Ok);
                assert(final(vm).stack@ =~= old(vm).stack@);
            }
            Ok(())
        },
    }
}

/// Call and return: calling with two arguments a callee that loads them,
/// adds them and returns one value leaves exactly one value on the caller's
/// evaluation stack, equal to the exact sum of the two arguments.
pub fn call_add_return(x: i128, y: i128, is_signed: bool, bit_length: u8) -> (r: (
    Value,
    VirtualMachine,
))
    requires
        crate::value::scalar_type_wf(is_signed, bit_length),
        scalar_in_range(is_signed, bit_length, x),
        scalar_in_range(is_signed, bit_length, y),
        scalar_in_range(is_signed, bit_length, (x as int + y as int) as i128),
        x + y == (x as int + y as int) as i128,
    ensures
        r.1.wf(),
        r.1.stack@.len() == 1,
        r.1.stack@[0] == r.0,
        r.0.concrete == Some((x + y) as i128),
        r.1.conditions@.len() == 0,
        r.1.frames@.len() == 0,
{
    let program: Vec<Instruction> = Vec::new();
    let mut vm = VirtualMachine::new(program);
    let r1 = vm.exec_push_const(x, is_signed, bit_length);
    let r2 = vm.exec_push_const(y, is_signed, bit_length);
    vm.pc = 0;
    let r3 = vm.exec_call(3, 2);
    proof {
        assert(r3 is Ok);
        assert(vm.frames@.len() == 1);
    }
    let base = vm.local_base();
    let r4 = vm.exec_load(base, 0, 1);
    let r5 = vm.exec_load(base, 1, 1);
    proof {
        assert(r4 is Ok && r5 is Ok);
    }
    let r6 = vm.exec_arith_linear(true);
    proof {
        assert(r6 is Ok);
    }
    let r7 = vm.exec_return(1);
    proof {
        assert(r7 is Ok);
        assert(vm.stack@.len() == 1);
    }
    let out = vm.stack[0];
    (out, vm)
}


/// Which storage operation an indexed or by-reference access performs.
#[derive(Clone, Copy, Debug)]
pub enum AccessOp {
    Load { count: usize },
    Store,
    StoreSeq { count: usize },
}

/// The cells one element of the access occupies: the scaling unit of an
/// index, and the arity of the transfer.
pub open spec fn op_count(op: AccessOp) -> int {
    match op {
        AccessOp::Load { count } => count as int,
        AccessOp::Store => 1,
        AccessOp::StoreSeq { count } => count as int,
    }
}

/// Transition of the storage operation itself, after `p` operand values
/// (reference and index) have been consumed and the absolute address `abs`
/// is resolved: exactly the direct load/store semantics, with every failure
/// leaving just those `p` values consumed.
pub open spec fn rel_resolved(
    pre: VirtualMachine,
    post: VirtualMachine,
    p: int,
    abs: int,
    op: AccessOp,
    r: Result<(), RuntimeError>,
) -> bool {
    let floor = pre.spec_stack_floor();
    let n = pre.stack@.len() as int;
    let in_cond = pre.conditions@.len() > 0;
    match op {
        AccessOp::Load { count } => if abs + count > pre.memory@.len() {
            r == Err::<(), RuntimeError>(RuntimeError::OutOfBounds) && consumed_only(pre, post, p)
        } else {
            &&& r == Ok::<(), RuntimeError>(())
            &&& post.stack@ == pre.stack@.take(n - p) + pre.memory@.subrange(abs, abs + count)
            &&& post.backend.values@ == pre.backend.values@
            &&& post.backend.gates@ == pre.backend.gates@
            &&& VirtualMachine::same_but_stack_backend(pre, post)
        },
        AccessOp::Store => if n - p < floor + 1 {
            r == Err::<(), RuntimeError>(RuntimeError::StackUnderflow) && consumed_only(
                pre,
                post,
                p,
            )
        } else if abs > pre.memory@.len() || (in_cond && abs == pre.memory@.len()) {
            r == Err::<(), RuntimeError>(RuntimeError::OutOfBounds) && consumed_only(pre, post, p)
        } else {
            let v = pre.stack@[n - p - 1];
            &&& r == Ok::<(), RuntimeError>(())
            &&& post.stack@ == pre.stack@.take(n - p - 1)
            &&& post.memory@ == if abs == pre.memory@.len() {
                pre.memory@.push(v)
            } else {
                pre.memory@.update(abs, v)
            }
            &&& conds_after_store(pre, post, abs)
            &&& same_but_stack_memory_conds(pre, post)
        },
        AccessOp::StoreSeq { count } => if in_cond {
            r == Err::<(), RuntimeError>(RuntimeError::UnbalancedConditions) && consumed_only(
                pre,
                post,
                p,
            )
        } else if n - p < floor + count {
            r == Err::<(), RuntimeError>(RuntimeError::StackUnderflow) && consumed_only(
                pre,
                post,
                p,
            )
        } else if abs + count > pre.memory@.len() {
            r == Err::<(), RuntimeError>(RuntimeError::OutOfBounds) && consumed_only(pre, post, p)
        } else {
            &&& r == Ok::<(), RuntimeError>(())
            &&& post.stack@ == pre.stack@.take(n - p - count)
            &&& post.memory@.len() == pre.memory@.len()
            &&& (forall|j: int|
                0 <= j < pre.memory@.len() ==> #[trigger] post.memory@[j] == if abs <= j < abs
                    + count {
                    pre.stack@[n - p - count + (j - abs)]
                } else {
                    pre.memory@[j]
                })
            &&& post.conditions@ == pre.conditions@
            &&& same_but_stack_memory_conds(pre, post)
        },
    }
}

/// Transition of every indexed and by-reference storage form. When
/// `by_ref` the absolute base is popped first; when `bound` is given, a
/// concrete index is popped next and checked against the declared aggregate
/// size, scaled by the transfer arity; the resolved cell or block is then
/// loaded or stored exactly as the direct forms are. Failures leave exactly
/// the operands consumed so far on the stack.
pub open spec fn rel_access(
    pre: VirtualMachine,
    post: VirtualMachine,
    by_ref: bool,
    local: bool,
    address: usize,
    bound: Option<usize>,
    op: AccessOp,
    r: Result<(), RuntimeError>,
) -> bool {
    let floor = pre.spec_stack_floor();
    let n = pre.stack@.len() as int;
    let base = if local {
        pre.spec_local_base()
    } else {
        0
    };
    if by_ref && n < floor + 1 {
        r == Err::<(), RuntimeError>(RuntimeError::StackUnderflow) && unchanged_vm(pre, post)
    } else if by_ref && index_of(pre.stack@.last()) is None {
        r == Err::<(), RuntimeError>(RuntimeError::ExpectedConstant) && unchanged_vm(pre, post)
    } else if by_ref && index_of(pre.stack@.last())->0 > usize::MAX {
        r == Err::<(), RuntimeError>(RuntimeError::OutOfBounds) && unchanged_vm(pre, post)
    } else {
        let p1 = if by_ref {
            1int
        } else {
            0
        };
        let a0 = if by_ref {
            index_of(pre.stack@.last())->0
        } else {
            address as int
        };
        match bound {
            None => rel_resolved(pre, post, p1, base + a0, op, r),
            Some(bd) => {
                let scale = op_count(op);
                if n - p1 < floor + 1 {
                    r == Err::<(), RuntimeError>(RuntimeError::StackUnderflow) && consumed_only(
                        pre,
                        post,
                        p1,
                    )
                } else {
                    match index_of(pre.stack@[n - 1 - p1]) {
                        None => r == Err::<(), RuntimeError>(RuntimeError::ExpectedConstant)
                            && consumed_only(pre, post, p1),
                        Some(ix) => if ix > usize::MAX {
                            r == Err::<(), RuntimeError>(RuntimeError::OutOfBounds)
                                && consumed_only(pre, post, p1)
                        } else if (ix + 1) * scale > bd {
                            r == Err::<(), RuntimeError>(RuntimeError::OutOfBounds)
                                && consumed_only(pre, post, p1 + 1)
                        } else if a0 + ix * scale > usize::MAX {
                            r == Err::<(), RuntimeError>(RuntimeError::OutOfBounds)
                                && consumed_only(pre, post, p1 + 1)
                        } else {
                            rel_resolved(pre, post, p1 + 1, base + a0 + ix * scale, op, r)
                        },
                    }
                }
            },
        }
    }
}

impl VirtualMachine {
    /// Executes one indexed or by-reference storage access.
    #[verifier::rlimit(100)]
    #[verifier::spinoff_prover]
    pub fn exec_access(
        &mut self,
        by_ref: bool,
        local: bool,
        address: usize,
        bound: Option<usize>,
        op: AccessOp,
    ) -> (r: Result<(), RuntimeError>)
        requires
            old(self).wf(),
            by_ref ==> !local && address == 0,
        ensures
            final(self).wf(),
            rel_access(*old(self), *final(self), by_ref, local, address, bound, op, r),
    {
        let a0: usize;
        if by_ref {
            a0 = match self.pop_index() {
                Ok(v) => v,
                Err(e) => {
                    return Err(e);
                },
            };
            proof {
                assert(self.stack@ =~= old(self).stack@.take(old(self).stack@.len() - 1));
            }
        } else {
            a0 = address;
        }
        let ghost mid1 = *self;
        let ghost p1: int = if by_ref {
            1
        } else {
            0
        };
        proof {
            if !by_ref {
                assert(mid1.stack@ =~= old(self).stack@.take(old(self).stack@.len() - 0));
            }
            assert(consumed_only(*old(self), mid1, p1));
            assert(mid1.spec_stack_floor() == old(self).spec_stack_floor());
            assert(mid1.stack@.len() == old(self).stack@.len() - p1);
            if mid1.stack@.len() > 0 {
                assert(mid1.stack@.last() == old(self).stack@[old(self).stack@.len() - 1 - p1]);
            }
        }
        let off: usize;
        match bound {
            None => {
                off = a0;
            },
            Some(bd) => {
                let scale: usize = match op {
                    AccessOp::Load { count } => count,
                    AccessOp::Store => 1,
                    AccessOp::StoreSeq { count } => count,
                };
                off = match self.indexed_offset(a0, bd, scale) {
                    Ok(v) => v,
                    Err(e) => {
                        proof {
                            lemma_consumed_chain(*old(self), mid1, *final(self), p1);
                        }
                        return Err(e);
                    },
                };
            },
        }
        let ghost mid2 = *self;
        let ghost p: int = p1 + if bound is Some {
            1int
        } else {
            0
        };
        proof {
            if bound is Some {
                lemma_consumed_chain(*old(self), mid1, mid2, p1);
            }
            assert(consumed_only(*old(self), mid2, p));
        }
        let base = if local {
            self.local_base()
        } else {
            0
        };
        proof {
            assert(base as int == if local {
                old(self).spec_local_base()
            } else {
                0int
            });
        }
        let sr = match op {
            AccessOp::Load { count } => self.exec_load(base, off, count),
            AccessOp::Store => self.exec_store(base, off),
            AccessOp::StoreSeq { count } => self.exec_store_seq(base, off, count),
        };
        proof {
            lemma_resolved_from_mid(*old(self), mid2, *final(self), p, base + off, op, sr);
        }
        sr
    }
}

/// Two consumptions compose.
proof fn lemma_consumed_chain(pre: VirtualMachine, mid: VirtualMachine, post: VirtualMachine, p1: int)
    requires
        consumed_only(pre, mid, p1),
        0 <= p1 <= pre.stack@.len(),
    ensures
        unchanged_vm(mid, post) ==> consumed_only(pre, post, p1),
        consumed_only(mid, post, 1) && mid.stack@.len() > 0 ==> consumed_only(pre, post, p1 + 1),
{
    if unchanged_vm(mid, post) {
        assert(post.stack@ =~= pre.stack@.take(pre.stack@.len() - p1));
    }
    if consumed_only(mid, post, 1) && mid.stack@.len() > 0 {
        assert(post.stack@ =~= pre.stack@.take(pre.stack@.len() - (p1 + 1)));
    }
}

/// The storage relation carries over from the consumed intermediate state
/// to the original one.
#[verifier::rlimit(100)]
#[verifier::spinoff_prover]
proof fn lemma_resolved_from_mid(
    pre: VirtualMachine,
    mid: VirtualMachine,
    post: VirtualMachine,
    p: int,
    abs: int,
    op: AccessOp,
    r: Result<(), RuntimeError>,
)
    requires
        consumed_only(pre, mid, p),
        0 <= p <= pre.stack@.len(),
        match op {
            AccessOp::Load { count } => rel_load_abs(mid, post, abs, count as int, r),
            AccessOp::Store => rel_store_abs(mid, post, abs, r),
            AccessOp::StoreSeq { count } => rel_store_seq_abs(mid, post, abs, count as int, r),
        },
    ensures
        rel_resolved(pre, post, p, abs, op, r),
{
    let n = pre.stack@.len() as int;
    assert(mid.stack@.len() == n - p);
    assert(mid.spec_stack_floor() == pre.spec_stack_floor());
    assert(forall|k: int| 0 <= k < n - p ==> #[trigger] mid.stack@[k] == pre.stack@[k]);
    match op {
        AccessOp::Load { count } => {
            if abs + count > mid.memory@.len() {
                assert(post.stack@ =~= pre.stack@.take(n - p));
            } else {
                assert(post.stack@ =~= pre.stack@.take(n - p) + pre.memory@.subrange(
                    abs,
                    abs + count as int,
                ));
            }
        },
        AccessOp::Store => {
            if mid.stack@.len() <= mid.spec_stack_floor() {
                assert(post.stack@ =~= pre.stack@.take(n - p));
            } else if abs > mid.memory@.len() || (mid.conditions@.len() > 0 && abs
                == mid.memory@.len()) {
                assert(post.stack@ =~= pre.stack@.take(n - p));
            } else {
                assert(mid.stack@.last() == pre.stack@[n - p - 1]);
                assert(post.stack@ =~= pre.stack@.take(n - p - 1));
                assert(conds_after_store(pre, post, abs)) by {
                    let nc = pre.conditions@.len() as int;
                    if nc > 0 {
                        assert(conds_after_store(mid, post, abs));
                        assert(mid.conditions@ == pre.conditions@);
                        assert(mid.memory@ == pre.memory@);
                    }
                }
            }
        },
        AccessOp::StoreSeq { count } => {
            if mid.conditions@.len() > 0 {
                assert(post.stack@ =~= pre.stack@.take(n - p));
            } else if mid.stack@.len() < mid.spec_stack_floor() + count {
                assert(post.stack@ =~= pre.stack@.take(n - p));
            } else if abs + count > mid.memory@.len() {
                assert(post.stack@ =~= pre.stack@.take(n - p));
            } else {
                assert(post.stack@ =~= pre.stack@.take(n - p - count));
                assert forall|j: int| 0 <= j < pre.memory@.len() implies #[trigger] post.memory@[j]
                    == if abs <= j < abs + count {
                    pre.stack@[n - p - count + (j - abs)]
                } else {
                    pre.memory@[j]
                } by {
                    if abs <= j < abs + count {
                        assert(mid.stack@[mid.stack@.len() - count + (j - abs)] == pre.stack@[n - p
                            - count + (j - abs)]);
                    }
                }
            }
        },
    }
}

} // verus!
