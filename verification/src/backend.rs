//! The constraint backend: an append-only witness table and gate list. Each
//! virtual-machine operation allocates its witnesses here, together with the
//! gate that ties the result to its operands, so that one execution serves
//! both native evaluation and the accumulation of constraints.

use vstd::prelude::*;
use crate::value::scalar_in_range;

verus! {

/// A binary operation a gate can constrain.
#[derive(Clone, Copy, Debug, PartialEq, Eq, Structural)]
pub enum GateOp {
    Mul,
    Div,
    Rem,
    And,
    Or,
    Xor,
    Lt,
    Le,
    Eq,
    Ne,
    Ge,
    Gt,
}

/// One recorded constraint over witness indices.
#[derive(Clone, Copy, Debug, PartialEq, Eq, Structural)]
pub enum Gate {
    /// `w[a] == w[b]`.
    Equal { a: usize, b: usize },
    /// `w[r] == ca * w[a] + cb * w[b] + k`.
    Linear { ca: i128, a: usize, cb: i128, b: usize, k: i128, r: usize },
    /// `w[r] == op(w[a], w[b])`.
    Binary { op: GateOp, a: usize, b: usize, r: usize },
    /// `w[s]` is a bit and `w[r]` is `w[t]` when it is set, else `w[f]`.
    Select { s: usize, t: usize, f: usize, r: usize },
    /// `w[x]` lies in the range of the scalar type.
    Range { x: usize, is_signed: bool, bit_length: u8 },
    /// When the selector bit `w[c]` is set, `w[x]` must be the true bit.
    GatedAssert { c: usize, x: usize },
    /// `w[x] != 0`.
    NonZero { x: usize },
    /// An external operation: `n_results` fresh witnesses starting at
    /// `first_result`, which answer `n_args` popped arguments. Its meaning
    /// is owned by whoever resolves the identifier, so it constrains nothing
    /// here.
    Builtin { identifier: usize, n_args: usize, first_result: usize, n_results: usize },
}

/// Euclidean quotient: the remainder is always non-negative.
pub open spec fn euclid_div(a: int, b: int) -> int {
    if b > 0 {
        a / b
    } else {
        -(a / (-b))
    }
}

/// Euclidean remainder, in `[0, |b|)`.
pub open spec fn euclid_mod(a: int, b: int) -> int {
    if b > 0 {
        a % b
    } else {
        a % (-b)
    }
}

/// The concrete meaning of a gate operation, when both operands are known.
/// Division and remainder are Euclidean; boolean operations expect bits.
pub open spec fn gate_op_value(op: GateOp, a: i128, b: i128) -> Option<i128> {
    match op {
        GateOp::Mul => Some(((a as int) * (b as int)) as i128),
        GateOp::Div => if b == 0 {
            None
        } else {
            Some(euclid_div(a as int, b as int) as i128)
        },
        GateOp::Rem => if b == 0 {
            None
        } else {
            Some(euclid_mod(a as int, b as int) as i128)
        },
        GateOp::And => Some(if a != 0 && b != 0 { 1 } else { 0 }),
        GateOp::Or => Some(if a != 0 || b != 0 { 1 } else { 0 }),
        GateOp::Xor => Some(if (a != 0) != (b != 0) { 1 } else { 0 }),
        GateOp::Lt => Some(if a < b { 1 } else { 0 }),
        GateOp::Le => Some(if a <= b { 1 } else { 0 }),
        GateOp::Eq => Some(if a == b { 1 } else { 0 }),
        GateOp::Ne => Some(if a != b { 1 } else { 0 }),
        GateOp::Ge => Some(if a >= b { 1 } else { 0 }),
        GateOp::Gt => Some(if a > b { 1 } else { 0 }),
    }
}

/// Each witness index of a gate is a valid table position.
pub open spec fn gate_in_bounds(g: Gate, n: int) -> bool {
    match g {
        Gate::Equal { a, b } => (a as int) < n && (b as int) < n,
        Gate::Linear { a, b, r, .. } => (a as int) < n && (b as int) < n && (r as int) < n,
        Gate::Binary { a, b, r, .. } => (a as int) < n && (b as int) < n && (r as int) < n,
        Gate::Select { s, t, f, r } => (s as int) < n && (t as int) < n && (f as int) < n && (
        r as int) < n,
        Gate::Range { x, .. } => (x as int) < n,
        Gate::GatedAssert { c, x } => (c as int) < n && (x as int) < n,
        Gate::NonZero { x } => (x as int) < n,
        Gate::Builtin { first_result, n_results, .. } => first_result + n_results <= n,
    }
}

/// Whether a witness table satisfies a gate. A gate over a witness
/// without a concrete value constrains nothing natively.
pub open spec fn gate_holds(g: Gate, w: Seq<Option<i128>>) -> bool {
    match g {
        Gate::Equal { a, b } => match (w[a as int], w[b as int]) {
            (Some(x), Some(y)) => x == y,
            _ => true,
        },
        Gate::Linear { ca, a, cb, b, k, r } => match (w[a as int], w[b as int], w[r as int]) {
            (Some(x), Some(y), Some(z)) => z == (ca as int) * (x as int) + (cb as int) * (y as int)
                + (k as int),
            _ => true,
        },
        Gate::Binary { op, a, b, r } => match (w[a as int], w[b as int], w[r as int]) {
            (Some(x), Some(y), Some(z)) => gate_op_value(op, x, y) == Some(z),
            _ => true,
        },
        Gate::Select { s, t, f, r } => match (w[s as int], w[t as int], w[f as int], w[r as int]) {
            (Some(sv), Some(tv), Some(fv), Some(rv)) => (sv == 0 || sv == 1) && rv == if sv == 1 {
                tv
            } else {
                fv
            },
            _ => true,
        },
        Gate::Range { x, is_signed, bit_length } => match w[x as int] {
            Some(v) => scalar_in_range(is_signed, bit_length, v),
            None => true,
        },
        Gate::GatedAssert { c, x } => match (w[c as int], w[x as int]) {
            (Some(cv), Some(xv)) => cv != 0 ==> xv == 1,
            _ => true,
        },
        Gate::NonZero { x } => match w[x as int] {
            Some(v) => v != 0,
            None => true,
        },
        Gate::Builtin { .. } => true,
    }
}

/// The witness table and the accumulated constraint set.
pub struct Backend {
    pub values: Vec<Option<i128>>,
    pub gates: Vec<Gate>,
}

impl Backend {
    /// Every gate names valid witnesses and is satisfied by the table.
    pub open spec fn wf(self) -> bool {
        forall|k: int|
            0 <= k < self.gates@.len() ==> gate_in_bounds(
                #[trigger] self.gates@[k],
                self.values@.len() as int,
            ) && gate_holds(self.gates@[k], self.values@)
    }

    pub fn new() -> (r: Backend)
        ensures
            r.values@ == Seq::<Option<i128>>::empty(),
            r.gates@ == Seq::<Gate>::empty(),
            r.wf(),
    {
        Backend { values: Vec::new(), gates: Vec::new() }
    }

    /// Allocates a fresh witness carrying `c`.
    pub fn allocate(&mut self, c: Option<i128>) -> (r: usize)
        ensures
            final(self).values@ == old(self).values@.push(c),
            final(self).gates@ == old(self).gates@,
            r == old(self).values@.len(),
            old(self).wf() ==> final(self).wf(),
    {
        let r = self.values.len();
        self.values.push(c);
        proof {
            if old(self).wf() {
                assert forall|k: int| 0 <= k < self.gates@.len() implies gate_in_bounds(
                    #[trigger] self.gates@[k],
                    self.values@.len() as int,
                ) && gate_holds(self.gates@[k], self.values@) by {
                    assert(gate_in_bounds(self.gates@[k], old(self).values@.len() as int));
                    assert(gate_holds(self.gates@[k], old(self).values@));
                    lemma_gate_holds_push(self.gates@[k], old(self).values@, c);
                }
            }
        }
        r
    }

    /// Appends a gate whose named witnesses exist and which the current
    /// table satisfies.
    pub fn push_gate(&mut self, g: Gate)
        requires
            gate_in_bounds(g, old(self).values@.len() as int),
            gate_holds(g, old(self).values@),
        ensures
            final(self).values@ == old(self).values@,
            final(self).gates@ == old(self).gates@.push(g),
            old(self).wf() ==> final(self).wf(),
    {
        self.gates.push(g);
    }
}

/// A gate satisfied by a table stays satisfied when the table grows.
pub proof fn lemma_gate_holds_push(g: Gate, w: Seq<Option<i128>>, c: Option<i128>)
    requires
        gate_in_bounds(g, w.len() as int),
        gate_holds(g, w),
    ensures
        gate_in_bounds(g, w.len() as int + 1),
        gate_holds(g, w.push(c)),
{
}

} // verus!
