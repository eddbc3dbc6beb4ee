//! The instruction tape and its interpreter.
//!
//! A tape is a postfix program: a shape instruction pushes the shape's
//! distance at the (translated) query point, an operator instruction pops two
//! operands and pushes their boolean combination. A well-formed tape leaves
//! exactly one value, the signed distance of the whole scene; the empty tape
//! stands for the empty scene and evaluates to the divergent sentinel.

use vstd::prelude::*;

verus! {

use crate::math::{iabs, point_sub, spec_sub, Point, COORD_MAX, DIST_MAX};
use crate::primitives_enum::Shape;
use crate::sdf::{lemma_algebra_laws, spec_intersect, spec_subtract, spec_union, spec_xor, Sdf,
    SignedDistance, DIVERGENT};
use crate::stack::Stack;

/// The boolean operators of the constructive solid geometry algebra.
#[derive(Clone, Copy, PartialEq, Eq, Structural, Debug)]
pub enum Operator {
    Union,
    Intersect,
    Subtract,
    Xor,
}

/// What an operator computes on two distance values; the left operand is the
/// one pushed earlier.
pub open spec fn spec_operate<T: SignedDistance>(op: Operator, a: T, b: T) -> T {
    match op {
        Operator::Union => spec_union(a, b),
        Operator::Intersect => spec_intersect(a, b),
        Operator::Subtract => spec_subtract(a, b),
        Operator::Xor => spec_xor(a, b),
    }
}

/// An operator's scalar result is one of the operands' scalars, possibly
/// negated, so magnitude bounds survive composition.
pub proof fn lemma_operate_bound<T: SignedDistance>(op: Operator, a: T, b: T, bound: int)
    requires
        iabs(a.sval()) <= bound,
        iabs(b.sval()) <= bound,
        bound < i64::MAX as int,
    ensures
        iabs(spec_operate(op, a, b).sval()) <= bound,
{
    lemma_algebra_laws(a, b);
    lemma_algebra_laws(spec_intersect(a, b), spec_union(a, b));
}

impl Operator {
    /// Applies the operator; both operands must carry representable,
    /// negatable scalars.
    pub fn operate<T: SignedDistance>(&self, a: T, b: T) -> (r: T)
        requires
            a.sval() != i64::MIN as int,
            b.sval() != i64::MIN as int,
        ensures
            r == spec_operate(*self, a, b),
    {
        match self {
            Operator::Union => a.union(&b),
            Operator::Intersect => a.intersect(&b),
            Operator::Subtract => a.subtract(&b),
            Operator::Xor => a.xor(&b),
        }
    }
}

/// A translation applied to a shape before distance evaluation.
#[derive(Clone, Copy, PartialEq, Eq, Structural, Debug)]
pub struct Transform {
    pub position: Point,
}

impl Default for Transform {
    fn default() -> (r: Transform)
        ensures
            r == (Transform { position: Point { x: 0i64, y: 0i64 } }),
    {
        Transform { position: Point { x: 0, y: 0 } }
    }
}

/// One step of a postfix tape.
#[derive(Clone, Copy, PartialEq, Eq, Structural, Debug)]
pub enum Instruction {
    Operator(Operator),
    Sdf(Shape, Transform),
}

/// The shape is well formed and its translation representable.
pub open spec fn instr_wf(i: Instruction) -> bool {
    match i {
        Instruction::Operator(_) => true,
        Instruction::Sdf(s, t) => s.wf() && t.position.within(COORD_MAX as int),
    }
}

/// The value a shape instruction pushes: the shape's distance at the query
/// point brought into the shape's own frame.
pub open spec fn leaf_val(s: Shape, t: Transform, p: Point) -> i64 {
    s.sd_spec(spec_sub(p, t.position))
}

/// One step of the stack machine.
pub open spec fn step(i: Instruction, p: Point, st: Seq<i64>) -> Seq<i64> {
    match i {
        Instruction::Operator(op) => st.drop_last().drop_last().push(
            spec_operate(op, st[st.len() - 2], st[st.len() - 1]),
        ),
        Instruction::Sdf(s, t) => st.push(leaf_val(s, t, p)),
    }
}

/// Runs the whole tape on a starting stack.
pub open spec fn run(tape: Seq<Instruction>, p: Point, st: Seq<i64>) -> Seq<i64>
    decreases tape.len(),
{
    if tape.len() == 0 {
        st
    } else {
        run(tape.drop_first(), p, step(tape[0], p, st))
    }
}

/// Starting from depth `d`, every operator finds two operands.
pub open spec fn depths_ok(tape: Seq<Instruction>, d: int) -> bool
    decreases tape.len(),
{
    if tape.len() == 0 {
        true
    } else {
        match tape[0] {
            Instruction::Operator(_) => d >= 2 && depths_ok(tape.drop_first(), d - 1),
            Instruction::Sdf(_, _) => depths_ok(tape.drop_first(), d + 1),
        }
    }
}

/// The stack depth after the whole tape, starting from depth `d`.
pub open spec fn net_depth(tape: Seq<Instruction>, d: int) -> int
    decreases tape.len(),
{
    if tape.len() == 0 {
        d
    } else {
        match tape[0] {
            Instruction::Operator(_) => net_depth(tape.drop_first(), d - 1),
            Instruction::Sdf(_, _) => net_depth(tape.drop_first(), d + 1),
        }
    }
}

/// A well-formed tape: every operator finds two operands, the final stack
/// holds exactly one value (unless the tape is empty), and every shape is
/// representable.
pub open spec fn tape_wf(tape: Seq<Instruction>) -> bool {
    &&& depths_ok(tape, 0)
    &&& tape.len() == 0 || net_depth(tape, 0) == 1
    &&& forall|j: int| 0 <= j < tape.len() ==> instr_wf(#[trigger] tape[j])
}

/// The signed distance a tape denotes at `p`: the single value a well-formed
/// tape leaves on the stack, or the divergent sentinel for the empty tape.
pub open spec fn eval_tape(tape: Seq<Instruction>, p: Point) -> i64 {
    if tape.len() == 0 {
        DIVERGENT
    } else {
        run(tape, p, Seq::empty()).last()
    }
}

/// Running a well-formed tape takes the stack to the predicted depth and
/// keeps every value within `DIST_MAX`.
pub proof fn lemma_run_props(tape: Seq<Instruction>, p: Point, st: Seq<i64>)
    requires
        depths_ok(tape, st.len() as int),
        forall|j: int| 0 <= j < tape.len() ==> instr_wf(#[trigger] tape[j]),
        p.within(2 * COORD_MAX as int),
        forall|j: int| 0 <= j < st.len() ==> iabs(#[trigger] st[j] as int) <= DIST_MAX as int,
    ensures
        run(tape, p, st).len() == net_depth(tape, st.len() as int),
        forall|j: int|
            0 <= j < run(tape, p, st).len() ==> iabs(#[trigger] run(tape, p, st)[j] as int)
                <= DIST_MAX as int,
    decreases tape.len(),
{
    if tape.len() > 0 {
        let st2 = step(tape[0], p, st);
        match tape[0] {
            Instruction::Operator(op) => {
                let a = st[st.len() - 2];
                let b = st[st.len() - 1];
                lemma_operate_bound(op, a, b, DIST_MAX as int);
                assert(forall|j: int|
                    0 <= j < st2.len() ==> iabs(#[trigger] st2[j] as int) <= DIST_MAX as int);
            },
            Instruction::Sdf(s, t) => {
                s.lemma_sd_bound(spec_sub(p, t.position));
                assert(forall|j: int|
                    0 <= j < st2.len() ==> iabs(#[trigger] st2[j] as int) <= DIST_MAX as int);
            },
        }
        assert(forall|j: int|
            0 <= j < tape.drop_first().len() ==> instr_wf(#[trigger] tape.drop_first()[j]));
        lemma_run_props(tape.drop_first(), p, st2);
    }
}

/// A well-formed tape's value is the sentinel exactly on the empty tape, and
/// otherwise bounded by `DIST_MAX`.
pub proof fn lemma_eval_in_range(tape: Seq<Instruction>, p: Point)
    requires
        tape_wf(tape),
        p.within(2 * COORD_MAX as int),
    ensures
        tape.len() == 0 ==> eval_tape(tape, p) == DIVERGENT,
        tape.len() > 0 ==> iabs(eval_tape(tape, p) as int) <= DIST_MAX as int,
{
    if tape.len() > 0 {
        lemma_run_props(tape, p, Seq::empty());
    }
}

/// Running a concatenation runs the parts in order.
pub proof fn lemma_run_cat(t1: Seq<Instruction>, t2: Seq<Instruction>, p: Point, st: Seq<i64>)
    ensures
        run(t1 + t2, p, st) == run(t2, p, run(t1, p, st)),
    decreases t1.len(),
{
    if t1.len() == 0 {
        assert(t1 + t2 =~= t2);
    } else {
        assert((t1 + t2)[0] == t1[0]);
        assert((t1 + t2).drop_first() =~= t1.drop_first() + t2);
        lemma_run_cat(t1.drop_first(), t2, p, step(t1[0], p, st));
    }
}

/// Evaluation is deterministic: the value a tape takes at a point is a
/// function of the tape and the point alone, so two evaluations of the same
/// tape at the same point agree bit for bit.
pub proof fn lemma_eval_deterministic(tape: Seq<Instruction>, p: Point, r1: i64, r2: i64)
    requires
        r1 == eval_tape(tape, p),
        r2 == eval_tape(tape, p),
    ensures
        r1 == r2,
{
}

/// A tape with a borrowed instruction slice, evaluated on demand.
///
/// Only well-formed tapes (`tape_wf`) are in the evaluator's domain: a
/// malformed tape would starve an operator of operands, which is a compiler
/// invariant violation, and the compiler's tapes are proved well formed.
pub struct SdfInstructions<'a> {
    instructions: &'a [Instruction],
}

impl<'a> SdfInstructions<'a> {
    pub fn new(instructions: &'a [Instruction]) -> (r: SdfInstructions<'a>)
        ensures
            r@ == instructions@,
    {
        SdfInstructions { instructions }
    }
}

impl<'a> View for SdfInstructions<'a> {
    type V = Seq<Instruction>;

    /// The tape as the sequence of its instructions.
    closed spec fn view(&self) -> Seq<Instruction> {
        self.instructions@
    }
}

impl<'a> Sdf<i64> for SdfInstructions<'a> {
    open spec fn sd_req(&self, p: Point) -> bool {
        tape_wf(self@) && p.within(2 * COORD_MAX as int)
    }

    /// The value the stack machine leaves for this tape at `p`.
    open spec fn sd_spec(&self, p: Point) -> i64 {
        eval_tape(self@, p)
    }

    open spec fn dist_spec(&self, p: Point) -> i64 {
        iabs(eval_tape(self@, p) as int) as i64
    }

    /// A single left-to-right pass over the tape with a value stack.
    fn signed_distance(&self, p: Point) -> (r: i64) {
        let n = self.instructions.len();
        if n == 0 {
            return DIVERGENT;
        }
        let ghost tape = self.instructions@;
        let mut stack = Stack::<i64>::new();
        let mut i: usize = 0;
        proof {
            assert(tape.skip(0) =~= tape);
        }
        while i < n
            invariant
                0 <= i <= n,
                n == tape.len(),
                tape == self.instructions@,
                tape_wf(tape),
                p.within(2 * COORD_MAX as int),
                run(tape, p, Seq::empty()) == run(tape.skip(i as int), p, stack@),
                depths_ok(tape.skip(i as int), stack@.len() as int),
                net_depth(tape.skip(i as int), stack@.len() as int) == net_depth(tape, 0),
                forall|j: int|
                    0 <= j < stack@.len() ==> iabs(#[trigger] stack@[j] as int) <= DIST_MAX as int,
            decreases n - i,
        {
            let ghost rest = tape.skip(i as int);
            let ghost st0 = stack@;
            proof {
                assert(rest[0] == tape[i as int]);
                assert(rest.drop_first() =~= tape.skip(i as int + 1));
            }
            let instr = self.instructions[i];
            match instr {
                Instruction::Operator(op) => {
                    let b = stack.pop();
                    let a = stack.pop();
                    proof {
                        assert(a == st0[st0.len() - 2] && b == st0[st0.len() - 1]);
                        lemma_operate_bound(op, a, b, DIST_MAX as int);
                    }
                    stack.push(op.operate(a, b));
                },
                Instruction::Sdf(shape, transform) => {
                    proof {
                        assert(instr_wf(tape[i as int]));
                        shape.lemma_sd_bound(spec_sub(p, transform.position));
                    }
                    let q = point_sub(p, transform.position);
                    stack.push(shape.signed_distance(q));
                },
            }
            proof {
                assert(stack@ == step(rest[0], p, st0));
                assert(forall|j: int|
                    0 <= j < stack@.len() ==> iabs(#[trigger] stack@[j] as int)
                        <= DIST_MAX as int);
            }
            i = i + 1;
        }
        proof {
            assert(tape.skip(n as int) =~= Seq::<Instruction>::empty());
        }
        stack.pop()
    }

    fn distance(&self, p: Point) -> (r: i64) {
        proof {
            lemma_eval_in_range(self@, p);
        }
        let d = self.signed_distance(p);
        if d < 0 {
            -d
        } else {
            d
        }
    }
}

} // verus!
