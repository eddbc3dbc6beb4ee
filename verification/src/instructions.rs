//! The tagged instruction tape for picking.
//!
//! A second flavour of the tape keeps, on every instruction and every stack
//! value, the identifier of the tree node it came from, so that evaluating it
//! at a point answers "which node owns this point". The scalar it computes is
//! proved to match the plain tape's, so rendering and picking always agree.

use vstd::prelude::*;

verus! {

use crate::math::{iabs, point_sub, spec_sub, Point, COORD_MAX, DIST_MAX};
use crate::primitives_enum::Shape;
use crate::sdf::Sdf;
use crate::sdf_builder_tree::ItemId;
use crate::sdf_interpreter::{depths_ok, instr_wf, leaf_val, net_depth, run, spec_operate, step,
    tape_wf, Instruction, Operator, Transform};
use crate::stack::Stack;

/// One step of a tagged postfix tape; the operator's tag names the tree node
/// the operator came from.
#[derive(Clone, Copy, PartialEq, Eq, Structural, Debug)]
pub enum InstructionForId {
    Operator(Operator, ItemId),
    Shape(Shape, ItemId, Transform),
}

/// The same tape with the tags dropped, as the renderer evaluates it.
pub open spec fn strip_id(i: InstructionForId) -> Instruction {
    match i {
        InstructionForId::Operator(op, _) => Instruction::Operator(op),
        InstructionForId::Shape(s, _, t) => Instruction::Sdf(s, t),
    }
}

impl InstructionForId {
    /// Drops the tag, leaving the instruction the renderer sees.
    pub fn to_instruction(self) -> (r: Instruction)
        ensures
            r == strip_id(self),
    {
        match self {
            InstructionForId::Operator(op, _) => Instruction::Operator(op),
            InstructionForId::Shape(s, _, t) => Instruction::Sdf(s, t),
        }
    }
}

/// A tagged tape is well formed when its stripped form is.
pub open spec fn tape_wf_id(tape: Seq<InstructionForId>) -> bool {
    tape_wf(tape.map_values(|i: InstructionForId| strip_id(i)))
}

/// A scalar distance tagged with its owning node.
#[derive(Clone, Copy, PartialEq, Eq, Structural, Debug)]
pub struct IdAndDistance {
    pub d: i64,
    pub id: ItemId,
}

impl Default for IdAndDistance {
    fn default() -> (r: IdAndDistance)
        ensures
            r == (IdAndDistance { d: 0i64, id: ItemId(0u32) }),
    {
        IdAndDistance { d: 0, id: ItemId(0) }
    }
}

/// The smaller scalar wins; ties go to the right operand.
pub open spec fn spec_min_id(a: IdAndDistance, b: IdAndDistance) -> IdAndDistance {
    if a.d < b.d {
        a
    } else {
        b
    }
}

/// The larger scalar wins; ties go to the right operand.
pub open spec fn spec_max_id(a: IdAndDistance, b: IdAndDistance) -> IdAndDistance {
    if a.d > b.d {
        a
    } else {
        b
    }
}

/// The scalar negated, the tag kept.
pub open spec fn spec_neg_id(a: IdAndDistance) -> IdAndDistance
    recommends
        a.d != i64::MIN,
{
    IdAndDistance { d: (-(a.d as int)) as i64, id: a.id }
}

/// What an operator computes on tagged values: the min/max algebra, with
/// subtraction and xor negating the carved operand.
pub open spec fn spec_operate_id(op: Operator, a: IdAndDistance, b: IdAndDistance) -> IdAndDistance {
    match op {
        Operator::Union => spec_min_id(a, b),
        Operator::Intersect => spec_max_id(a, b),
        Operator::Subtract => spec_max_id(b, spec_neg_id(a)),
        Operator::Xor => spec_max_id(spec_min_id(a, b), spec_neg_id(spec_max_id(a, b))),
    }
}

/// The tagged operators keep scalar magnitudes bounded: the result's scalar
/// is one of the operands', possibly negated.
pub proof fn lemma_operate_id_bound(op: Operator, a: IdAndDistance, b: IdAndDistance)
    requires
        iabs(a.d as int) <= DIST_MAX as int,
        iabs(b.d as int) <= DIST_MAX as int,
    ensures
        iabs(spec_operate_id(op, a, b).d as int) <= DIST_MAX as int,
{
}

/// Tagged and plain operators compute the same scalar; only the tag of a tie
/// may differ.
pub proof fn lemma_operate_id_matches(op: Operator, a: IdAndDistance, b: IdAndDistance)
    requires
        a.d != i64::MIN,
        b.d != i64::MIN,
    ensures
        spec_operate_id(op, a, b).d as int == spec_operate::<i64>(op, a.d, b.d) as int,
        spec_operate_id(op, a, b).d != i64::MIN,
        spec_operate_id(op, a, b).id == a.id || spec_operate_id(op, a, b).id == b.id,
{
}

/// The value a tagged shape instruction pushes.
pub open spec fn leaf_val_id(s: Shape, id: ItemId, t: Transform, p: Point) -> IdAndDistance {
    IdAndDistance { d: leaf_val(s, t, p), id }
}

/// One step of the tagged stack machine.
pub open spec fn step_id(i: InstructionForId, p: Point, st: Seq<IdAndDistance>) -> Seq<
    IdAndDistance,
> {
    match i {
        InstructionForId::Operator(op, _) => st.drop_last().drop_last().push(
            spec_operate_id(op, st[st.len() - 2], st[st.len() - 1]),
        ),
        InstructionForId::Shape(s, id, t) => st.push(leaf_val_id(s, id, t, p)),
    }
}

/// Runs the whole tagged tape on a starting stack.
pub open spec fn run_id(tape: Seq<InstructionForId>, p: Point, st: Seq<IdAndDistance>) -> Seq<
    IdAndDistance,
>
    decreases tape.len(),
{
    if tape.len() == 0 {
        st
    } else {
        run_id(tape.drop_first(), p, step_id(tape[0], p, st))
    }
}

/// The owner a tagged tape names at `p`: the tag of the single value a
/// well-formed tape leaves, or nothing for the empty tape.
pub open spec fn eval_id(tape: Seq<InstructionForId>, p: Point) -> Option<ItemId> {
    if tape.len() == 0 {
        None
    } else {
        Some(run_id(tape, p, Seq::empty()).last().id)
    }
}

/// The scalar the same tape computes for the renderer.
pub open spec fn eval_stripped(tape: Seq<InstructionForId>, p: Point) -> i64 {
    crate::sdf_interpreter::eval_tape(tape.map_values(|i: InstructionForId| strip_id(i)), p)
}

/// Running a tagged tape mirrors running its stripped form: the stacks agree
/// scalar for scalar, so the picker's distances are the renderer's.
pub proof fn lemma_run_id_matches(
    tape: Seq<InstructionForId>,
    p: Point,
    st_id: Seq<IdAndDistance>,
    st: Seq<i64>,
)
    requires
        st.len() == st_id.len(),
        forall|j: int| 0 <= j < st.len() ==> st[j] as int == (#[trigger] st_id[j]).d as int,
        forall|j: int| 0 <= j < st.len() ==> iabs((#[trigger] st_id[j]).d as int) <= DIST_MAX as int,
        depths_ok(tape.map_values(|i: InstructionForId| strip_id(i)), st.len() as int),
        forall|j: int| 0 <= j < tape.len() ==> instr_wf(strip_id(#[trigger] tape[j])),
        p.within(2 * COORD_MAX as int),
    ensures
        ({
            let r_id = run_id(tape, p, st_id);
            let r = run(tape.map_values(|i: InstructionForId| strip_id(i)), p, st);
            &&& r.len() == r_id.len()
            &&& forall|j: int| 0 <= j < r.len() ==> r[j] as int == (#[trigger] r_id[j]).d as int
            &&& forall|j: int|
                0 <= j < r.len() ==> iabs((#[trigger] r_id[j]).d as int) <= DIST_MAX as int
        }),
    decreases tape.len(),
{
    let stripped = tape.map_values(|i: InstructionForId| strip_id(i));
    if tape.len() > 0 {
        assert(stripped[0] == strip_id(tape[0]));
        assert(stripped.drop_first() =~= tape.drop_first().map_values(
            |i: InstructionForId| strip_id(i),
        ));
        let st2_id = step_id(tape[0], p, st_id);
        let st2 = step(stripped[0], p, st);
        match tape[0] {
            InstructionForId::Operator(op, _) => {
                let a_id = st_id[st_id.len() - 2];
                let b_id = st_id[st_id.len() - 1];
                lemma_operate_id_matches(op, a_id, b_id);
                lemma_operate_id_bound(op, a_id, b_id);
                assert(st[st.len() - 2] as int == a_id.d as int);
                assert(st2.len() == st2_id.len());
                assert(forall|j: int|
                    0 <= j < st2.len() ==> st2[j] as int == (#[trigger] st2_id[j]).d as int);
                assert(forall|j: int|
                    0 <= j < st2.len() ==> iabs((#[trigger] st2_id[j]).d as int)
                        <= DIST_MAX as int);
            },
            InstructionForId::Shape(s, id, t) => {
                assert(instr_wf(stripped[0]));
                s.lemma_sd_bound(spec_sub(p, t.position));
                assert(st2.len() == st2_id.len());
                assert(forall|j: int|
                    0 <= j < st2.len() ==> st2[j] as int == (#[trigger] st2_id[j]).d as int);
                assert(forall|j: int|
                    0 <= j < st2.len() ==> iabs((#[trigger] st2_id[j]).d as int)
                        <= DIST_MAX as int);
            },
        }
        assert(forall|j: int|
            0 <= j < tape.drop_first().len() ==> instr_wf(
                strip_id(#[trigger] tape.drop_first()[j]),
            ));
        lemma_run_id_matches(tape.drop_first(), p, st2_id, st2);
    }
}

/// Running a concatenation runs the parts in order.
pub proof fn lemma_run_id_cat(
    t1: Seq<InstructionForId>,
    t2: Seq<InstructionForId>,
    p: Point,
    st: Seq<IdAndDistance>,
)
    ensures
        run_id(t1 + t2, p, st) == run_id(t2, p, run_id(t1, p, st)),
    decreases t1.len(),
{
    if t1.len() == 0 {
        assert(t1 + t2 =~= t2);
    } else {
        assert((t1 + t2)[0] == t1[0]);
        assert((t1 + t2).drop_first() =~= t1.drop_first() + t2);
        lemma_run_id_cat(t1.drop_first(), t2, p, step_id(t1[0], p, st));
    }
}

/// The picker and the renderer agree: the scalar left by a well-formed
/// tagged tape is exactly the value its stripped form computes for the
/// renderer, so the distance behind a returned owner is the rendered one.
pub proof fn lemma_picker_matches_renderer(tape: Seq<InstructionForId>, p: Point)
    requires
        tape_wf_id(tape),
        p.within(2 * COORD_MAX as int),
        tape.len() > 0,
    ensures
        run_id(tape, p, Seq::<IdAndDistance>::empty()).last().d == eval_stripped(tape, p),
{
    let stripped = tape.map_values(|i: InstructionForId| strip_id(i));
    assert(forall|j: int| 0 <= j < tape.len() ==> instr_wf(strip_id(#[trigger] tape[j]))) by {
        assert(forall|j: int|
            0 <= j < stripped.len() ==> instr_wf(#[trigger] stripped[j]));
        assert(forall|j: int| 0 <= j < tape.len() ==> stripped[j] == strip_id(#[trigger] tape[j]));
    }
    lemma_run_id_matches(tape, p, Seq::<IdAndDistance>::empty(), Seq::<i64>::empty());
    let r_id = run_id(tape, p, Seq::<IdAndDistance>::empty());
    let r = run(stripped, p, Seq::<i64>::empty());
    crate::sdf_interpreter::lemma_run_props(stripped, p, Seq::<i64>::empty());
    assert(net_depth(stripped, 0) == 1);
    assert(r.len() == 1 && r_id.len() == 1);
    assert(r[0] as int == r_id[0].d as int);
}

/// Evaluates a tagged tape at one point and answers which tree node owns it;
/// the empty tape owns nothing. Used for hit testing.
pub fn id_of_signed_distance(instructions: &[InstructionForId], p: Point) -> (r: Option<ItemId>)
    requires
        tape_wf_id(instructions@),
        p.within(2 * COORD_MAX as int),
    ensures
        r == eval_id(instructions@, p),
        (r is None) <==> instructions@.len() == 0,
{
    let n = instructions.len();
    if n == 0 {
        return None;
    }
    let ghost tape = instructions@;
    let ghost stripped = tape.map_values(|i: InstructionForId| strip_id(i));
    let mut stack = Stack::<IdAndDistance>::new();
    let mut i: usize = 0;
    proof {
        assert(tape.skip(0) =~= tape);
        assert(stripped.skip(0) =~= stripped);
    }
    while i < n
        invariant
            0 <= i <= n,
            n == tape.len(),
            tape == instructions@,
            stripped == tape.map_values(|ii: InstructionForId| strip_id(ii)),
            tape_wf(stripped),
            p.within(2 * COORD_MAX as int),
            run_id(tape, p, Seq::empty()) == run_id(tape.skip(i as int), p, stack@),
            depths_ok(stripped.skip(i as int), stack@.len() as int),
            net_depth(stripped.skip(i as int), stack@.len() as int) == net_depth(stripped, 0),
            forall|j: int|
                0 <= j < stack@.len() ==> iabs((#[trigger] stack@[j]).d as int)
                    <= DIST_MAX as int,
        decreases n - i,
    {
        let ghost rest = tape.skip(i as int);
        let ghost rest_s = stripped.skip(i as int);
        let ghost st0 = stack@;
        proof {
            assert(rest[0] == tape[i as int]);
            assert(rest_s[0] == stripped[i as int]);
            assert(stripped[i as int] == strip_id(tape[i as int]));
            assert(rest.drop_first() =~= tape.skip(i as int + 1));
            assert(rest_s.drop_first() =~= stripped.skip(i as int + 1));
        }
        let instr = instructions[i];
        match instr {
            InstructionForId::Operator(op, _) => {
                let b = stack.pop();
                let a = stack.pop();
                proof {
                    assert(a == st0[st0.len() - 2] && b == st0[st0.len() - 1]);
                }
                stack.push(operate_with_id(op, a, b));
            },
            InstructionForId::Shape(shape, id, transform) => {
                proof {
                    assert(instr_wf(stripped[i as int]));
                    shape.lemma_sd_bound(spec_sub(p, transform.position));
                }
                let q = point_sub(p, transform.position);
                stack.push(IdAndDistance { d: shape.signed_distance(q), id });
            },
        }
        proof {
            assert(stack@ == step_id(rest[0], p, st0));
            assert(forall|j: int|
                0 <= j < stack@.len() ==> iabs((#[trigger] stack@[j]).d as int)
                    <= DIST_MAX as int);
        }
        i = i + 1;
    }
    proof {
        assert(tape.skip(n as int) =~= Seq::<InstructionForId>::empty());
        assert(stripped.skip(n as int) =~= Seq::<Instruction>::empty());
    }
    Some(stack.pop().id)
}

/// Applies a tagged operator, mirroring the min/max algebra exactly.
fn operate_with_id(op: Operator, a: IdAndDistance, b: IdAndDistance) -> (r: IdAndDistance)
    requires
        iabs(a.d as int) <= DIST_MAX as int,
        iabs(b.d as int) <= DIST_MAX as int,
    ensures
        r == spec_operate_id(op, a, b),
        iabs(r.d as int) <= DIST_MAX as int,
{
    match op {
        Operator::Union => min_id(a, b),
        Operator::Intersect => max_id(a, b),
        Operator::Subtract => max_id(b, neg_id(a)),
        Operator::Xor => max_id(min_id(a, b), neg_id(max_id(a, b))),
    }
}

fn min_id(a: IdAndDistance, b: IdAndDistance) -> (r: IdAndDistance)
    ensures
        r == spec_min_id(a, b),
{
    if a.d < b.d {
        a
    } else {
        b
    }
}

fn max_id(a: IdAndDistance, b: IdAndDistance) -> (r: IdAndDistance)
    ensures
        r == spec_max_id(a, b),
{
    if a.d > b.d {
        a
    } else {
        b
    }
}

fn neg_id(a: IdAndDistance) -> (r: IdAndDistance)
    requires
        a.d != i64::MIN,
    ensures
        r == spec_neg_id(a),
{
    IdAndDistance { d: -a.d, id: a.id }
}

} // verus!
