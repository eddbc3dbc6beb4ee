//! The shape tree and its compiler.
//!
//! An arena of nodes keyed by identifier: a node is either a shape leaf with
//! a translation or an operator with an ordered list of children. The tree is
//! whatever is reachable from the root, a union node. Editing commands arrive
//! in a queue and are drained in order once per edit cycle; each edit marks
//! the cached grid as stale. The compiler flattens the tree into the postfix
//! tapes the interpreter evaluates.

use vstd::prelude::*;

verus! {

use std::collections::HashMap;

broadcast use vstd::std_specs::hash::group_hash_axioms;
use crate::instructions::{leaf_val_id, run_id, spec_operate_id, step_id, strip_id,
    tape_wf_id, IdAndDistance, InstructionForId};
use crate::instructions::lemma_run_id_cat;
use crate::math::{Point, COORD_MAX, UNIT};
use crate::primitives_enum::Shape;
use crate::sdf_interpreter::{depths_ok, instr_wf, net_depth, run, step, tape_wf, Instruction,
    Operator, Transform};

/// The identifier of a tree node: opaque, unique within one tree, stable
/// across edits.
#[derive(Hash, Clone, Copy, PartialEq, Eq, Structural, Debug)]
pub struct ItemId(pub u32);

impl Default for ItemId {
    fn default() -> (r: ItemId)
        ensures
            r == (ItemId(0u32)),
    {
        ItemId(0)
    }
}

/// A tree node: an operator over an ordered list of children, or a shape
/// leaf with its translation.
#[derive(Clone, Debug)]
pub enum Item {
    Operator(Operator, Vec<ItemId>),
    Shape(Shape, Transform),
}

/// A leaf's geometry is representable; an operator node is always welcome.
pub open spec fn item_wf(item: Item) -> bool {
    match item {
        Item::Operator(_, _) => true,
        Item::Shape(s, t) => s.wf() && t.position.within(COORD_MAX as int),
    }
}

impl Item {
    /// Decides `item_wf` for a candidate node.
    pub fn check_wf(&self) -> (r: bool)
        ensures
            r == item_wf(*self),
    {
        match self {
            Item::Operator(_, _) => true,
            Item::Shape(s, t) => {
                let sp = t.position;
                let shape_ok = match s {
                    Shape::Disk(d) => -COORD_MAX <= d.radius && d.radius <= COORD_MAX,
                    Shape::Torus(d) => -COORD_MAX <= d.major_radius && d.major_radius <= COORD_MAX
                        && -COORD_MAX <= d.minor_radius && d.minor_radius <= COORD_MAX,
                    Shape::Rectangle(d) => -COORD_MAX <= d.width && d.width <= COORD_MAX
                        && -COORD_MAX <= d.height && d.height <= COORD_MAX,
                    Shape::Cross(d) => -COORD_MAX <= d.length && d.length <= COORD_MAX
                        && -COORD_MAX <= d.thickness && d.thickness <= COORD_MAX,
                    Shape::Plane(d) => -4 * UNIT <= d.normal.x && d.normal.x <= 4
                        * UNIT && -4 * UNIT <= d.normal.y && d.normal.y <= 4
                        * UNIT,
                    Shape::Ray(d) => -4 * UNIT <= d.direction.x && d.direction.x <= 4
                        * UNIT && -4 * UNIT <= d.direction.y && d.direction.y <= 4
                        * UNIT,
                    Shape::LineSegment(d) => -COORD_MAX <= d.a.x && d.a.x <= COORD_MAX
                        && -COORD_MAX <= d.a.y && d.a.y <= COORD_MAX && -COORD_MAX <= d.b.x
                        && d.b.x <= COORD_MAX && -COORD_MAX <= d.b.y && d.b.y <= COORD_MAX,
                };
                shape_ok && -COORD_MAX <= sp.x && sp.x <= COORD_MAX && -COORD_MAX <= sp.y && sp.y
                    <= COORD_MAX
            },
        }
    }
}

/// The editor's current selection: an existing node, or one being dragged in
/// that does not live in the tree yet.
#[derive(Clone, Debug)]
pub struct SelectedItem {
    pub id: Option<ItemId>,
    pub new_item: Option<Item>,
}

impl SelectedItem {
    /// No selection.
    pub fn none() -> (r: SelectedItem)
        ensures
            r.id is None,
            r.new_item is None,
    {
        SelectedItem { id: None, new_item: None }
    }

    pub fn of(id: ItemId) -> (r: SelectedItem)
        ensures
            r.id == Some(id),
            r.new_item is None,
    {
        SelectedItem { id: Some(id), new_item: None }
    }

    pub fn new(id: ItemId, item: Item) -> (r: SelectedItem)
        ensures
            r.id == Some(id),
            r.new_item == Some(item),
    {
        SelectedItem { id: Some(id), new_item: Some(item) }
    }
}

/// One editing command; the queue drains in first-in, first-out order.
#[derive(Clone, Debug)]
pub enum Command {
    /// Set the selected item.
    SetSelectedItem(SelectedItem),
    /// Move an existing item to the given container and position.
    MoveItem { moved_item_id: ItemId, target_container_id: ItemId, target_position_index: usize },
    /// Add a new item to the given container and position.
    AddItem {
        item: Item,
        new_item_id: ItemId,
        target_container_id: ItemId,
        target_position_index: usize,
    },
    /// Replace an item's contents.
    EditItem { item: Item, item_id: ItemId },
    /// Remove an item, and with an operator all its descendants.
    RemoveItem { item_id: ItemId },
    /// Highlight the container a drag currently points at.
    HighlightTargetContainer(ItemId),
}

/// What compiling one node emits, and whether the node produced a value.
/// A missing node or an exhausted recursion bound collapses to nothing, as
/// does an operator without value-producing children.
pub open spec fn spec_gen(m: Map<u32, Item>, id: u32, fuel: nat) -> (Seq<InstructionForId>, bool)
    decreases fuel, 0int,
{
    if fuel == 0 {
        (Seq::<InstructionForId>::empty(), false)
    } else if !m.dom().contains(id) {
        (Seq::<InstructionForId>::empty(), false)
    } else {
        match m[id] {
            Item::Shape(s, t) => (seq![InstructionForId::Shape(s, ItemId(id), t)], true),
            Item::Operator(op, children) => {
                let (tape, cnt) = spec_gen_list(
                    m,
                    op,
                    id,
                    children@.reverse(),
                    0,
                    (fuel - 1) as nat,
                );
                (tape, cnt >= 1)
            },
        }
    }
}

/// Compiles a child list (already reversed), given how many earlier children
/// produced a value: each later producer is followed by one operator
/// instruction folding it into the running result.
pub open spec fn spec_gen_list(
    m: Map<u32, Item>,
    op: Operator,
    oid: u32,
    ids: Seq<ItemId>,
    count: nat,
    fuel: nat,
) -> (Seq<InstructionForId>, nat)
    decreases fuel, ids.len(),
{
    if ids.len() == 0 {
        (Seq::<InstructionForId>::empty(), count)
    } else {
        let (ctape, cprod) = spec_gen(m, ids[0].0, fuel);
        let here = if cprod && count >= 1 {
            ctape + seq![InstructionForId::Operator(op, ItemId(oid))]
        } else {
            ctape
        };
        let ncount: nat = if cprod {
            count + 1
        } else {
            count
        };
        let (rest, fin) = spec_gen_list(m, op, oid, ids.drop_first(), ncount, fuel);
        (here + rest, fin)
    }
}

/// Every node of the arena is well formed.
pub open spec fn arena_wf(m: Map<u32, Item>) -> bool {
    forall|k: u32| m.dom().contains(k) ==> item_wf(#[trigger] m[k])
}

/// Depth bookkeeping concatenates: a tape followed by another is valid when
/// the second starts where the first ends.
pub proof fn lemma_depths_cat(t1: Seq<Instruction>, t2: Seq<Instruction>, d: int)
    requires
        depths_ok(t1, d),
        depths_ok(t2, net_depth(t1, d)),
    ensures
        depths_ok(t1 + t2, d),
        net_depth(t1 + t2, d) == net_depth(t2, net_depth(t1, d)),
    decreases t1.len(),
{
    if t1.len() == 0 {
        assert(t1 + t2 =~= t2);
    } else {
        assert((t1 + t2)[0] == t1[0]);
        assert((t1 + t2).drop_first() =~= t1.drop_first() + t2);
        match t1[0] {
            Instruction::Operator(_) => {
                lemma_depths_cat(t1.drop_first(), t2, d - 1);
            },
            Instruction::Sdf(_, _) => {
                lemma_depths_cat(t1.drop_first(), t2, d + 1);
            },
        }
    }
}

/// The stripped form of a compiled node: well-formed instructions that push
/// exactly one value when the node produces one, and nothing otherwise.
pub proof fn lemma_gen_wf(m: Map<u32, Item>, id: u32, fuel: nat, d: int)
    requires
        arena_wf(m),
        d >= 0,
    ensures
        ({
            let (tape, prod) = spec_gen(m, id, fuel);
            let stripped = tape.map_values(|i: InstructionForId| strip_id(i));
            &&& !prod ==> tape.len() == 0
            &&& prod ==> depths_ok(stripped, d) && net_depth(stripped, d) == d + 1
            &&& forall|j: int| 0 <= j < stripped.len() ==> instr_wf(#[trigger] stripped[j])
        }),
    decreases fuel, 0int,
{
    if fuel == 0 || !m.dom().contains(id) {
        let (tape, prod) = spec_gen(m, id, fuel);
        assert(tape.len() == 0);
        assert(tape.map_values(|i: InstructionForId| strip_id(i)) =~= Seq::<
            Instruction,
        >::empty());
    } else {
        match m[id] {
            Item::Shape(s, t) => {
                let (tape, prod) = spec_gen(m, id, fuel);
                let stripped = tape.map_values(|i: InstructionForId| strip_id(i));
                assert(item_wf(m[id]));
                assert(tape == seq![InstructionForId::Shape(s, ItemId(id), t)]);
                assert(stripped =~= seq![Instruction::Sdf(s, t)]);
                assert(stripped.drop_first() =~= Seq::<Instruction>::empty());
                assert(depths_ok(Seq::<Instruction>::empty(), d + 1));
                assert(net_depth(Seq::<Instruction>::empty(), d + 1) == d + 1);
                assert(depths_ok(stripped, d) && net_depth(stripped, d) == d + 1);
            },
            Item::Operator(op, children) => {
                lemma_gen_list_wf(m, op, id, children@.reverse(), 0, (fuel - 1) as nat, d);
            },
        }
    }
}

/// The list form of the statement above: compiling a child list on top of
/// `count` accumulated values keeps the bookkeeping valid and accumulates to
/// at most one running value.
pub proof fn lemma_gen_list_wf(
    m: Map<u32, Item>,
    op: Operator,
    oid: u32,
    ids: Seq<ItemId>,
    count: nat,
    fuel: nat,
    d: int,
)
    requires
        arena_wf(m),
        count == 0 ==> d >= 0,
        count >= 1 ==> d >= 1,
    ensures
        ({
            let (tape, fin) = spec_gen_list(m, op, oid, ids, count, fuel);
            let stripped = tape.map_values(|i: InstructionForId| strip_id(i));
            &&& fin >= count
            &&& (fin >= 1) == (count >= 1 || fin > count)
            &&& depths_ok(stripped, d)
            &&& net_depth(stripped, d) == if count == 0 && fin >= 1 {
                d + 1
            } else {
                d
            }
            &&& count == fin ==> tape.len() == 0
            &&& forall|j: int| 0 <= j < stripped.len() ==> instr_wf(#[trigger] stripped[j])
        }),
    decreases fuel, ids.len(),
{
    if ids.len() == 0 {
        let (tape, fin) = spec_gen_list(m, op, oid, ids, count, fuel);
        assert(tape.map_values(|i: InstructionForId| strip_id(i)) =~= Seq::<
            Instruction,
        >::empty());
    } else {
        let (ctape, cprod) = spec_gen(m, ids[0].0, fuel);
        let cstripped = ctape.map_values(|i: InstructionForId| strip_id(i));
        lemma_gen_wf(m, ids[0].0, fuel, d);
        let here = if cprod && count >= 1 {
            ctape + seq![InstructionForId::Operator(op, ItemId(oid))]
        } else {
            ctape
        };
        let hstripped = here.map_values(|i: InstructionForId| strip_id(i));
        let ncount: nat = if cprod {
            count + 1
        } else {
            count
        };
        if cprod && count >= 1 {
            let opseq = seq![Instruction::Operator(op)];
            assert(hstripped =~= cstripped + opseq);
            assert(opseq.len() == 1 && opseq[0] == Instruction::Operator(op));
            assert(opseq.drop_first() =~= Seq::<Instruction>::empty());
            assert(depths_ok(Seq::<Instruction>::empty(), d));
            assert(net_depth(Seq::<Instruction>::empty(), d) == d);
            assert(depths_ok(opseq, d + 1));
            assert(net_depth(opseq, d + 1) == d);
            assert(depths_ok(cstripped, d) && net_depth(cstripped, d) == d + 1);
            lemma_depths_cat(cstripped, opseq, d);
            assert(depths_ok(hstripped, d));
            assert(net_depth(hstripped, d) == d);
        } else if cprod {
            assert(hstripped =~= cstripped);
        } else {
            assert(ctape.len() == 0);
            assert(hstripped =~= Seq::<Instruction>::empty());
        }
        let nd: int = if cprod && count == 0 {
            d + 1
        } else {
            d
        };
        assert(net_depth(hstripped, d) == nd);
        lemma_gen_list_wf(m, op, oid, ids.drop_first(), ncount, fuel, nd);
        let (rest, fin) = spec_gen_list(m, op, oid, ids.drop_first(), ncount, fuel);
        let rstripped = rest.map_values(|i: InstructionForId| strip_id(i));
        lemma_depths_cat(hstripped, rstripped, d);
        let (tape, fin2) = spec_gen_list(m, op, oid, ids, count, fuel);
        assert(tape == here + rest);
        assert(tape.map_values(|i: InstructionForId| strip_id(i)) =~= hstripped + rstripped);
    }
}

/// The whole tape compiled from a root is well formed.
pub proof fn lemma_gen_tape_wf(m: Map<u32, Item>, id: u32, fuel: nat)
    requires
        arena_wf(m),
    ensures
        tape_wf_id(spec_gen(m, id, fuel).0),
        spec_gen(m, id, fuel).1 == (spec_gen(m, id, fuel).0.len() > 0),
    decreases 0int,
{
    lemma_gen_wf(m, id, fuel, 0);
    let (tape, prod) = spec_gen(m, id, fuel);
    let stripped = tape.map_values(|i: InstructionForId| strip_id(i));
    if !prod {
        assert(stripped =~= Seq::<Instruction>::empty());
    } else {
        if tape.len() == 0 {
            assert(net_depth(stripped, 0) == 0);
        }
    }
}

/// The stack-depth bookkeeping is monotone: a tape valid at one starting
/// depth is valid at any greater one, shifting the final depth along.
pub proof fn lemma_depths_shift(t: Seq<Instruction>, d: int, e: int)
    requires
        depths_ok(t, d),
        d <= e,
    ensures
        depths_ok(t, e),
        net_depth(t, e) == net_depth(t, d) + (e - d),
    decreases t.len(),
{
    if t.len() > 0 {
        match t[0] {
            Instruction::Operator(_) => {
                lemma_depths_shift(t.drop_first(), d - 1, e - 1);
            },
            Instruction::Sdf(_, _) => {
                lemma_depths_shift(t.drop_first(), d + 1, e + 1);
            },
        }
    }
}

/// The plain tape handed to the renderer: the compiled tape, with a pending
/// drag-preview shape folded over the whole scene by the current operator
/// mode when one is present.
pub open spec fn spec_with_extra(
    base: Seq<Instruction>,
    extra: Option<(Shape, Transform)>,
    mode: Operator,
) -> Seq<Instruction> {
    match extra {
        None => base,
        Some((s, t)) => {
            if base.len() == 0 {
                seq![Instruction::Sdf(s, t)]
            } else {
                seq![Instruction::Sdf(s, t)] + base + seq![Instruction::Operator(mode)]
            }
        },
    }
}

/// Folding a well-formed extra shape over a well-formed tape keeps the tape
/// well formed.
pub proof fn lemma_with_extra_wf(
    base: Seq<Instruction>,
    extra: Option<(Shape, Transform)>,
    mode: Operator,
)
    requires
        tape_wf(base),
        match extra {
            None => true,
            Some((s, t)) => s.wf() && t.position.within(COORD_MAX as int),
        },
    ensures
        tape_wf(spec_with_extra(base, extra, mode)),
{
    match extra {
        None => {},
        Some((s, t)) => {
            let leaf = seq![Instruction::Sdf(s, t)];
            assert(leaf.drop_first() =~= Seq::<Instruction>::empty());
            assert(depths_ok(Seq::<Instruction>::empty(), 1));
            assert(net_depth(Seq::<Instruction>::empty(), 1) == 1);
            assert(depths_ok(leaf, 0) && net_depth(leaf, 0) == 1);
            if base.len() == 0 {
            } else {
                let opseq = seq![Instruction::Operator(mode)];
                assert(opseq.drop_first() =~= Seq::<Instruction>::empty());
                assert(depths_ok(Seq::<Instruction>::empty(), 1));
                assert(net_depth(Seq::<Instruction>::empty(), 1) == 1);
                assert(depths_ok(opseq, 2) && net_depth(opseq, 2) == 1);
                lemma_depths_shift(base, 0, 1);
                lemma_depths_cat(base, opseq, 1);
                lemma_depths_cat(leaf, base + opseq, 0);
                let whole = spec_with_extra(base, extra, mode);
                assert(whole =~= leaf + (base + opseq));
                assert(depths_ok(whole, 0) && net_depth(whole, 0) == 1);
                assert forall|j: int| 0 <= j < whole.len() implies instr_wf(
                    #[trigger] whole[j],
                ) by {
                    if 1 <= j < 1 + base.len() {
                        assert(whole[j] == base[j - 1]);
                        assert(instr_wf(base[j - 1]));
                    }
                }
            }
        },
    }
}

/// The arena, the root, the selection, and the pending edits: the state the
/// editor works on.
pub struct SdfBuilderTree {
    items: HashMap<u32, Item>,
    root_id: ItemId,
    pub selected_item: SelectedItem,
    target_container: Option<ItemId>,
    commands: Vec<Command>,
    pub grid_needs_updating: bool,
    extra_item: Option<(Shape, Transform)>,
    operator_mode: Operator,
    next_id: u32,
}

impl SdfBuilderTree {
    /// All nodes, keyed by the raw value of their identifier.
    pub closed spec fn items_view(&self) -> Map<u32, Item> {
        self.items@
    }

    /// The root node's identifier.
    pub closed spec fn root(&self) -> ItemId {
        self.root_id
    }

    /// The pending commands, oldest first.
    pub closed spec fn queue(&self) -> Seq<Command> {
        self.commands@
    }

    /// The drag-preview shape, if one hovers over the scene.
    pub closed spec fn extra(&self) -> Option<(Shape, Transform)> {
        self.extra_item
    }

    /// The operator a drop will combine with.
    pub closed spec fn op_mode(&self) -> Operator {
        self.operator_mode
    }

    /// The container highlighted as the current drop target.
    pub closed spec fn target(&self) -> Option<ItemId> {
        self.target_container
    }

    /// The next identifier the allocator will hand out.
    pub closed spec fn next_id_spec(&self) -> u32 {
        self.next_id
    }

    /// The current selection.
    pub closed spec fn selection(&self) -> SelectedItem {
        self.selected_item
    }

    /// Whether an edit has made the cached grid stale.
    pub closed spec fn needs_update(&self) -> bool {
        self.grid_needs_updating
    }

    /// Every stored node and the pending preview are well formed.
    pub open spec fn inv(&self) -> bool {
        &&& arena_wf(self.items_view())
        &&& match self.extra() {
            None => true,
            Some((s, t)) => s.wf() && t.position.within(COORD_MAX as int),
        }
    }

    /// An empty scene: a lone union node as the root, nothing pending.
    pub fn new() -> (r: SdfBuilderTree)
        ensures
            r.root() == (ItemId(1u32)),
            r.items_view().dom() =~= set![1u32],
            r.items_view()[1u32] matches Item::Operator(op, kids) && op == Operator::Union
                && kids@.len() == 0,
            r.selection().id is None,
            r.selection().new_item is None,
            r.target() is None,
            r.queue().len() == 0,
            r.needs_update(),
            r.extra() is None,
            r.op_mode() == Operator::Union,
            r.next_id_spec() == 2u32,
            r.inv(),
    {
        let mut items: HashMap<u32, Item> = HashMap::new();
        let root_item = Item::Operator(Operator::Union, Vec::new());
        items.insert(1, root_item);
        SdfBuilderTree {
            items,
            root_id: ItemId(1),
            selected_item: SelectedItem::none(),
            target_container: None,
            commands: Vec::new(),
            grid_needs_updating: true,
            extra_item: None,
            operator_mode: Operator::Union,
            next_id: 2,
        }
    }

    /// Hands out a fresh identifier; the counter wraps only after four
    /// billion allocations.
    pub fn allocate_id(&mut self) -> (r: ItemId)
        ensures
            r == (ItemId(old(self).next_id_spec())),
            final(self).next_id_spec() == old(self).next_id_spec().wrapping_add(1),
            final(self).items_view() == old(self).items_view(),
            final(self).root() == old(self).root(),
            final(self).queue() == old(self).queue(),
            final(self).extra() == old(self).extra(),
            final(self).op_mode() == old(self).op_mode(),
            final(self).target() == old(self).target(),
            final(self).selection() == old(self).selection(),
            final(self).needs_update() == old(self).needs_update(),
            old(self).inv() ==> final(self).inv(),
    {
        let id = self.next_id;
        self.next_id = self.next_id.wrapping_add(1);
        ItemId(id)
    }

    /// The selected node's contents, when the selection names one that is in
    /// the tree.
    pub fn get_selected_item(&self) -> (r: Option<&Item>)
        ensures
            match r {
                Some(item) => self.selection().id matches Some(id) && self.items_view(
                ).dom().contains(id.0) && *item == self.items_view()[id.0],
                None => match self.selection().id {
                    Some(id) => !self.items_view().dom().contains(id.0),
                    None => true,
                },
            },
    {
        match &self.selected_item.id {
            Some(id) => self.items.get(&id.0),
            None => None,
        }
    }

    /// Queues one command for the next drain.
    pub fn send_command(&mut self, command: Command)
        ensures
            final(self).queue() == old(self).queue().push(command),
            final(self).items_view() == old(self).items_view(),
            final(self).root() == old(self).root(),
            final(self).extra() == old(self).extra(),
            final(self).op_mode() == old(self).op_mode(),
            final(self).target() == old(self).target(),
            final(self).selection() == old(self).selection(),
            final(self).needs_update() == old(self).needs_update(),
            final(self).next_id_spec() == old(self).next_id_spec(),
            old(self).inv() ==> final(self).inv(),
    {
        self.commands.push(command);
    }

    /// Compiles the subtree under `id` onto `out`, returning whether it
    /// produced a value; the recursion is bounded by `fuel`, which the node
    /// count of a tree never exhausts.
    fn gen_rec(&self, id: u32, out: &mut Vec<InstructionForId>, fuel: u64) -> (produced: bool)
        ensures
            final(out)@ == old(out)@ + spec_gen(self.items_view(), id, fuel as nat).0,
            produced == spec_gen(self.items_view(), id, fuel as nat).1,
        decreases fuel,
    {
        let ghost m = self.items_view();
        if fuel == 0 {
            proof {
                assert(out@ =~= out@ + spec_gen(m, id, 0).0);
            }
            return false;
        }
        match self.items.get(&id) {
            None => {
                proof {
                    assert(out@ =~= out@ + spec_gen(m, id, fuel as nat).0);
                }
                false
            },
            Some(item) => match item {
                Item::Shape(s, t) => {
                    out.push(InstructionForId::Shape(*s, ItemId(id), *t));
                    proof {
                        assert(out@ =~= old(out)@ + spec_gen(m, id, fuel as nat).0);
                    }
                    true
                },
                Item::Operator(op, children) => {
                    let op0 = *op;
                    let n = children.len();
                    let ghost ids_r = children@.reverse();
                    let ghost f = (fuel - 1) as nat;
                    let ghost entry = out@;
                    let ghost full = spec_gen_list(m, op0, id, ids_r, 0, f);
                    let mut j: usize = 0;
                    let mut count: usize = 0;
                    proof {
                        assert(ids_r.skip(0) =~= ids_r);
                    }
                    while j < n
                        invariant
                            0 <= j <= n,
                            count <= j,
                            n == ids_r.len(),
                            1 <= fuel,
                            f == (fuel - 1) as nat,
                            m == self.items_view(),
                            ids_r == children@.reverse(),
                            full == spec_gen_list(m, op0, id, ids_r, 0, f),
                            entry.len() <= out@.len(),
                            out@.subrange(0, entry.len() as int) == entry,
                            full.0 == out@.skip(entry.len() as int) + spec_gen_list(
                                m,
                                op0,
                                id,
                                ids_r.skip(j as int),
                                count as nat,
                                f,
                            ).0,
                            full.1 == spec_gen_list(
                                m,
                                op0,
                                id,
                                ids_r.skip(j as int),
                                count as nat,
                                f,
                            ).1,
                        decreases n - j,
                    {
                        let ghost pre = out@;
                        let ghost rest = ids_r.skip(j as int);
                        proof {
                            assert(rest[0] == ids_r[j as int]);
                            assert(ids_r[j as int] == children@[n - 1 - j as int]);
                            assert(rest.drop_first() =~= ids_r.skip(j as int + 1));
                        }
                        let child = children[n - 1 - j];
                        let prod = self.gen_rec(child.0, out, fuel - 1);
                        let ghost ctape = spec_gen(m, child.0, f).0;
                        if prod {
                            if count >= 1 {
                                out.push(InstructionForId::Operator(op0, ItemId(id)));
                                proof {
                                    assert(out@ =~= pre + (ctape + seq![
                                        InstructionForId::Operator(op0, ItemId(id)),
                                    ]));
                                }
                            }
                            count = count + 1;
                        }
                        proof {
                            assert(out@.subrange(0, entry.len() as int) =~= entry);
                            assert(out@.skip(entry.len() as int) =~= pre.skip(
                                entry.len() as int,
                            ) + out@.skip(pre.len() as int));
                            assert(full.0 =~= out@.skip(entry.len() as int) + spec_gen_list(
                                m,
                                op0,
                                id,
                                ids_r.skip(j as int + 1),
                                (count as nat),
                                f,
                            ).0);
                        }
                        j = j + 1;
                    }
                    proof {
                        assert(ids_r.skip(n as int) =~= Seq::<ItemId>::empty());
                        assert(spec_gen_list(m, op0, id, ids_r.skip(n as int), count as nat, f).0
                            =~= Seq::<InstructionForId>::empty());
                        assert(full.0 =~= out@.skip(entry.len() as int));
                        assert(out@ =~= entry + full.0);
                    }
                    count >= 1
                },
            },
        }
    }

    /// Flattens the tree into its two tapes: the plain one the renderer
    /// evaluates, with the drag preview folded in when one is pending, and
    /// the tagged one the picker evaluates. Both are well formed, so the
    /// interpreters accept them; `lemma_compiler_correct` and
    /// `lemma_scene_distance` say that running them computes exactly the
    /// tree's bottom-up value.
    pub fn generate_instructions(&self) -> (r: (Vec<Instruction>, Vec<InstructionForId>))
        requires
            self.inv(),
        ensures
            r.1@ == spec_gen(self.items_view(), self.root().0, self.items_view().dom().len()).0,
            tape_wf_id(r.1@),
            r.0@ == spec_with_extra(
                r.1@.map_values(|i: InstructionForId| strip_id(i)),
                self.extra(),
                self.op_mode(),
            ),
            tape_wf(r.0@),
    {
        let mut for_id: Vec<InstructionForId> = Vec::new();
        let fuel: u64 = self.items.len() as u64;
        let ghost m = self.items_view();
        self.gen_rec(self.root_id.0, &mut for_id, fuel);
        proof {
            assert(for_id@ =~= spec_gen(m, self.root().0, fuel as nat).0);
            lemma_gen_tape_wf(m, self.root().0, fuel as nat);
        }
        let ghost stripped = for_id@.map_values(|i: InstructionForId| strip_id(i));
        let mut instructions: Vec<Instruction> = Vec::new();
        let total = for_id.len();
        let mut k: usize = 0;
        while k < total
            invariant
                0 <= k <= total,
                total == for_id@.len(),
                instructions@.len() == k,
                forall|l: int|
                    0 <= l < k ==> instructions@[l] == strip_id(#[trigger] for_id@[l]),
            decreases total - k,
        {
            let instr = for_id[k].to_instruction();
            instructions.push(instr);
            k = k + 1;
        }
        proof {
            assert(instructions@ =~= stripped);
        }
        match &self.extra_item {
            Some(pair) => {
                let shape = pair.0;
                let transform = pair.1;
                if instructions.len() == 0 {
                    instructions.push(Instruction::Sdf(shape, transform));
                    proof {
                        assert(instructions@ =~= spec_with_extra(
                            stripped,
                            self.extra(),
                            self.op_mode(),
                        ));
                    }
                } else {
                    instructions.insert(0, Instruction::Sdf(shape, transform));
                    instructions.push(Instruction::Operator(self.operator_mode));
                    proof {
                        assert(instructions@ =~= spec_with_extra(
                            stripped,
                            self.extra(),
                            self.op_mode(),
                        ));
                    }
                }
            },
            None => {},
        }
        proof {
            lemma_with_extra_wf(stripped, self.extra(), self.op_mode());
        }
        (instructions, for_id)
    }
}


/// `id` names an operator node of the arena.
pub open spec fn is_container(m: Map<u32, Item>, id: ItemId) -> bool {
    m.dom().contains(id.0) && m[id.0] is Operator
}

/// Whether `item_id` sits in the subtree under the container `container_id`
/// (a container contains itself); explored `fuel` levels deep.
pub open spec fn spec_contains(
    m: Map<u32, Item>,
    container_id: ItemId,
    item_id: ItemId,
    fuel: nat,
) -> bool
    decreases fuel, 0int,
{
    if fuel == 0 {
        false
    } else if !m.dom().contains(container_id.0) {
        false
    } else {
        match m[container_id.0] {
            Item::Operator(_, children) => container_id == item_id || children@.contains(item_id)
                || spec_contains_any(m, children@, item_id, (fuel - 1) as nat),
            Item::Shape(_, _) => false,
        }
    }
}

pub open spec fn spec_contains_any(
    m: Map<u32, Item>,
    ids: Seq<ItemId>,
    item_id: ItemId,
    fuel: nat,
) -> bool
    decreases fuel, ids.len(),
{
    ids.len() != 0 && (spec_contains(m, ids[0], item_id, fuel) || spec_contains_any(
        m,
        ids.drop_first(),
        item_id,
        fuel,
    ))
}

/// The parent of `id` and its position among the parent's children, found by
/// depth-first search under `container_id`; explored `fuel` levels deep.
pub open spec fn spec_parent_in(
    m: Map<u32, Item>,
    id: ItemId,
    container_id: ItemId,
    fuel: nat,
) -> Option<(ItemId, int)>
    decreases fuel, 1int, 0int,
{
    if fuel == 0 {
        None
    } else if !is_container(m, container_id) {
        None
    } else {
        match m[container_id.0] {
            Item::Operator(_, children) => spec_parent_scan(
                m,
                id,
                container_id,
                children@,
                0,
                fuel,
            ),
            Item::Shape(_, _) => None,
        }
    }
}

pub open spec fn spec_parent_scan(
    m: Map<u32, Item>,
    id: ItemId,
    container_id: ItemId,
    ids: Seq<ItemId>,
    pos: int,
    fuel: nat,
) -> Option<(ItemId, int)>
    decreases fuel, 0int, ids.len(),
{
    if ids.len() == 0 {
        None
    } else if ids[0] == id {
        Some((container_id, pos))
    } else {
        let sub = if fuel >= 1 && is_container(m, ids[0]) {
            spec_parent_in(m, id, ids[0], (fuel - 1) as nat)
        } else {
            None
        };
        if sub is Some {
            sub
        } else {
            spec_parent_scan(m, id, container_id, ids.drop_first(), pos + 1, fuel)
        }
    }
}

/// A found parent really is an operator node holding `id` at the found
/// position.
pub proof fn lemma_parent_in_props(m: Map<u32, Item>, id: ItemId, container_id: ItemId, fuel: nat)
    ensures
        match spec_parent_in(m, id, container_id, fuel) {
            Some(pp) => is_container(m, pp.0) && (m[pp.0.0] matches Item::Operator(op, kids) && 0
                <= pp.1 < kids@.len() && kids@[pp.1] == id),
            None => true,
        },
    decreases fuel, 1int, 0int,
{
    if fuel != 0 && is_container(m, container_id) {
        match m[container_id.0] {
            Item::Operator(_, children) => {
                lemma_parent_scan_props(m, id, container_id, children@, 0, fuel);
            },
            Item::Shape(_, _) => {},
        }
    }
}

pub proof fn lemma_parent_scan_props(
    m: Map<u32, Item>,
    id: ItemId,
    container_id: ItemId,
    ids: Seq<ItemId>,
    pos: int,
    fuel: nat,
)
    requires
        is_container(m, container_id),
        m[container_id.0] matches Item::Operator(op, kids) && 0 <= pos && pos <= kids@.len()
            && ids =~= kids@.skip(pos),
    ensures
        match spec_parent_scan(m, id, container_id, ids, pos, fuel) {
            Some(pp) => is_container(m, pp.0) && (m[pp.0.0] matches Item::Operator(op2, kids2) && 0
                <= pp.1 < kids2@.len() && kids2@[pp.1] == id),
            None => true,
        },
    decreases fuel, 0int, ids.len(),
{
    if ids.len() != 0 {
        match m[container_id.0] {
            Item::Operator(_, kids) => {
                let kl = kids@.len() as int;
                assert(pos < kl);
                assert(kids@.skip(pos) =~= kids@.subrange(pos, kl));
                assert(ids[0] == kids@[pos]);
                if ids[0] == id {
                } else {
                    let sub = if fuel >= 1 && is_container(m, ids[0]) {
                        spec_parent_in(m, id, ids[0], (fuel - 1) as nat)
                    } else {
                        None
                    };
                    if fuel >= 1 && is_container(m, ids[0]) {
                        lemma_parent_in_props(m, id, ids[0], (fuel - 1) as nat);
                    }
                    if !(sub is Some) {
                        assert(ids.drop_first() =~= kids@.skip(pos + 1));
                        lemma_parent_scan_props(
                            m,
                            id,
                            container_id,
                            ids.drop_first(),
                            pos + 1,
                            fuel,
                        );
                    }
                }
            },
            Item::Shape(_, _) => {},
        }
    }
}

/// The identifiers of `id`'s subtree: the node itself and, under an
/// operator, everything under its children; explored `fuel` levels deep.
pub open spec fn subtree_ids(m: Map<u32, Item>, id: u32, fuel: nat) -> Seq<u32>
    decreases fuel, 0int,
{
    if fuel == 0 {
        Seq::<u32>::empty()
    } else if !m.dom().contains(id) {
        Seq::<u32>::empty()
    } else {
        match m[id] {
            Item::Shape(_, _) => seq![id],
            Item::Operator(_, children) => seq![id] + subtree_list(
                m,
                children@,
                (fuel - 1) as nat,
            ),
        }
    }
}

pub open spec fn subtree_list(m: Map<u32, Item>, ids: Seq<ItemId>, fuel: nat) -> Seq<u32>
    decreases fuel, ids.len(),
{
    if ids.len() == 0 {
        Seq::<u32>::empty()
    } else {
        subtree_ids(m, ids[0].0, fuel) + subtree_list(m, ids.drop_first(), fuel)
    }
}

/// `after` is `before` with the child at `pos` taken out.
pub open spec fn child_list_remove(before: Item, after: Item, pos: int) -> bool {
    match before {
        Item::Operator(op1, k1) => match after {
            Item::Operator(op2, k2) => op2 == op1 && k2@ == k1@.remove(pos),
            Item::Shape(_, _) => false,
        },
        Item::Shape(_, _) => false,
    }
}

/// `after` is `before` with `child` inserted at `pos`, clamped to the end.
pub open spec fn child_list_insert(before: Item, after: Item, child: ItemId, pos: int) -> bool {
    match before {
        Item::Operator(op1, k1) => match after {
            Item::Operator(op2, k2) => op2 == op1 && k2@ == k1@.insert(
                if pos <= k1@.len() {
                    pos
                } else {
                    k1@.len() as int
                },
                child,
            ),
            Item::Shape(_, _) => false,
        },
        Item::Shape(_, _) => false,
    }
}

/// How adding a node changes the arena: the node is stored, then hooked into
/// the target container when that names an operator (hooking a node into
/// itself included, as the editor never asks for it but the arena allows it).
pub open spec fn spec_add_rel(
    m0: Map<u32, Item>,
    item: Item,
    item_id: ItemId,
    container_id: ItemId,
    pos: int,
    m1: Map<u32, Item>,
) -> bool {
    let mi = m0.insert(item_id.0, item);
    if is_container(mi, container_id) {
        &&& m1.dom() =~= mi.dom()
        &&& forall|k: u32| mi.dom().contains(k) && k != container_id.0 ==> m1[k] == #[trigger] mi[k]
        &&& child_list_insert(mi[container_id.0], m1[container_id.0], item_id, pos)
    } else {
        m1 == mi
    }
}

/// How hooking alone changes the arena (for moves, whose node is already
/// stored).
pub open spec fn attach_rel(
    m0: Map<u32, Item>,
    item_id: ItemId,
    container_id: ItemId,
    pos: int,
    m1: Map<u32, Item>,
) -> bool {
    if is_container(m0, container_id) {
        &&& m1.dom() =~= m0.dom()
        &&& forall|k: u32| m0.dom().contains(k) && k != container_id.0 ==> m1[k] == #[trigger] m0[k]
        &&& child_list_insert(m0[container_id.0], m1[container_id.0], item_id, pos)
    } else {
        m1 == m0
    }
}

/// How unhooking a child changes the arena.
pub open spec fn detach_at(m0: Map<u32, Item>, pid: ItemId, pos: int, m1: Map<u32, Item>) -> bool {
    &&& m1.dom() =~= m0.dom()
    &&& forall|k: u32| m0.dom().contains(k) && k != pid.0 ==> m1[k] == #[trigger] m0[k]
    &&& child_list_remove(m0[pid.0], m1[pid.0], pos)
}

impl SdfBuilderTree {
    /// Whether `item_id` sits under the container `container_id`; used to
    /// refuse dropping a node into its own subtree.
    pub fn contains(&self, container_id: ItemId, item_id: ItemId) -> (r: bool)
        ensures
            r == spec_contains(
                self.items_view(),
                container_id,
                item_id,
                self.items_view().dom().len(),
            ),
    {
        let fuel = self.items.len() as u64;
        self.contains_rec(container_id, item_id, fuel)
    }

    fn contains_rec(&self, container_id: ItemId, item_id: ItemId, fuel: u64) -> (r: bool)
        ensures
            r == spec_contains(self.items_view(), container_id, item_id, fuel as nat),
        decreases fuel,
    {
        let ghost m = self.items_view();
        if fuel == 0 {
            return false;
        }
        match self.items.get(&container_id.0) {
            Some(item) => match item {
                Item::Operator(_, children) => {
                    if container_id.0 == item_id.0 {
                        return true;
                    }
                    let n = children.len();
                    let mut j: usize = 0;
                    while j < n
                        invariant
                            0 <= j <= n,
                            n == children@.len(),
                            1 <= fuel,
                            m == self.items_view(),
                            m.dom().contains(container_id.0),
                            m[container_id.0] matches Item::Operator(op, kids) && kids@
                                == children@,
                            forall|l: int| 0 <= l < j ==> children@[l] != item_id,
                        decreases n - j,
                    {
                        if children[j].0 == item_id.0 {
                            assert(children@[j as int] == item_id);
                            assert(children@.contains(item_id));
                            return true;
                        }
                        j = j + 1;
                    }
                    assert(!children@.contains(item_id)) by {
                        assert(forall|l: int| 0 <= l < children@.len() ==> children@[l] != item_id);
                    }
                    let ghost f2 = (fuel - 1) as nat;
                    let mut k: usize = 0;
                    proof {
                        assert(children@.skip(0) =~= children@);
                    }
                    while k < n
                        invariant
                            0 <= k <= n,
                            n == children@.len(),
                            1 <= fuel,
                            f2 == (fuel - 1) as nat,
                            m == self.items_view(),
                            m.dom().contains(container_id.0),
                            m[container_id.0] matches Item::Operator(op, kids) && kids@
                                == children@,
                            spec_contains_any(m, children@, item_id, f2) == spec_contains_any(
                                m,
                                children@.skip(k as int),
                                item_id,
                                f2,
                            ),
                        decreases n - k,
                    {
                        let ghost rest = children@.skip(k as int);
                        proof {
                            assert(rest[0] == children@[k as int]);
                            assert(rest.drop_first() =~= children@.skip(k as int + 1));
                        }
                        let child = children[k];
                        if self.contains_rec(child, item_id, fuel - 1) {
                            return true;
                        }
                        k = k + 1;
                    }
                    proof {
                        assert(children@.skip(n as int) =~= Seq::<ItemId>::empty());
                    }
                    false
                },
                Item::Shape(_, _) => false,
            },
            None => false,
        }
    }

    /// The parent of `id` and `id`'s position among its children; the root
    /// has no parent.
    pub fn parent_and_pos(&self, id: ItemId) -> (r: Option<(ItemId, usize)>)
        ensures
            ({
                let s = if id == self.root() {
                    None
                } else {
                    spec_parent_in(
                        self.items_view(),
                        id,
                        self.root(),
                        self.items_view().dom().len(),
                    )
                };
                match r {
                    Some(p) => s == Some((p.0, p.1 as int)),
                    None => s is None,
                }
            }),
    {
        if id.0 == self.root_id.0 {
            proof {
                assert(id == self.root());
            }
            None
        } else {
            let fuel = self.items.len() as u64;
            self.parent_rec(id, self.root_id, fuel)
        }
    }

    fn parent_rec(&self, id: ItemId, container_id: ItemId, fuel: u64) -> (r: Option<
        (ItemId, usize),
    >)
        ensures
            ({
                let s = spec_parent_in(self.items_view(), id, container_id, fuel as nat);
                match r {
                    Some(p) => s == Some((p.0, p.1 as int)),
                    None => s is None,
                }
            }),
        decreases fuel,
    {
        let ghost m = self.items_view();
        if fuel == 0 {
            return None;
        }
        match self.items.get(&container_id.0) {
            Some(item) => match item {
                Item::Operator(_, children) => {
                    let n = children.len();
                    let mut j: usize = 0;
                    proof {
                        assert(children@.skip(0) =~= children@);
                    }
                    while j < n
                        invariant
                            0 <= j <= n,
                            n == children@.len(),
                            1 <= fuel,
                            m == self.items_view(),
                            is_container(m, container_id),
                            m[container_id.0] matches Item::Operator(op, kids) && kids@
                                == children@,
                            spec_parent_in(m, id, container_id, fuel as nat) == spec_parent_scan(
                                m,
                                id,
                                container_id,
                                children@.skip(j as int),
                                j as int,
                                fuel as nat,
                            ),
                        decreases n - j,
                    {
                        let ghost rest = children@.skip(j as int);
                        proof {
                            assert(rest[0] == children@[j as int]);
                            assert(rest.drop_first() =~= children@.skip(j as int + 1));
                        }
                        let child = children[j];
                        if child.0 == id.0 {
                            proof {
                                assert(child == id);
                            }
                            return Some((container_id, j));
                        }
                        let is_cont = match self.items.get(&child.0) {
                            Some(c) => match c {
                                Item::Operator(_, _) => true,
                                Item::Shape(_, _) => false,
                            },
                            None => false,
                        };
                        if is_cont {
                            match self.parent_rec(id, child, fuel - 1) {
                                Some(p) => {
                                    return Some(p);
                                },
                                None => {},
                            }
                        }
                        j = j + 1;
                    }
                    proof {
                        assert(children@.skip(n as int) =~= Seq::<ItemId>::empty());
                    }
                    None
                },
                Item::Shape(_, _) => None,
            },
            None => None,
        }
    }

    /// Stores a new node and hooks it into the target container at the given
    /// position, clamped to the container's end.
    pub fn add_item(&mut self, item: Item, item_id: ItemId, container_id: ItemId, pos: usize)
        requires
            old(self).inv(),
            item_wf(item),
        ensures
            final(self).inv(),
            spec_add_rel(
                old(self).items_view(),
                item,
                item_id,
                container_id,
                pos as int,
                final(self).items_view(),
            ),
            final(self).root() == old(self).root(),
            final(self).queue() == old(self).queue(),
            final(self).extra() == old(self).extra(),
            final(self).op_mode() == old(self).op_mode(),
            final(self).target() == old(self).target(),
            final(self).selection() == old(self).selection(),
            final(self).needs_update() == old(self).needs_update(),
            final(self).next_id_spec() == old(self).next_id_spec(),
    {
        let ghost m0 = self.items_view();
        self.items.insert(item_id.0, item);
        let ghost mi = self.items_view();
        match self.items.remove(&container_id.0) {
            Some(c) => match c {
                Item::Operator(op, children) => {
                    let ghost before = mi[container_id.0];
                    let mut children = children;
                    let n = children.len();
                    let at = if pos <= n {
                        pos
                    } else {
                        n
                    };
                    children.insert(at, item_id);
                    self.items.insert(container_id.0, Item::Operator(op, children));
                    proof {
                        let m1 = self.items_view();
                        assert(m1.dom() =~= mi.dom());
                        assert(forall|k: u32|
                            mi.dom().contains(k) && k != container_id.0 ==> m1[k]
                                == #[trigger] mi[k]);
                        assert(child_list_insert(before, m1[container_id.0], item_id, pos as int));
                    }
                },
                Item::Shape(s2, t2) => {
                    self.items.insert(container_id.0, Item::Shape(s2, t2));
                    proof {
                        assert(self.items_view() =~= mi);
                    }
                },
            },
            None => {
                proof {
                    assert(self.items_view() =~= mi);
                }
            },
        }
    }

    /// Replaces the contents of a node that is in the tree.
    pub fn edit_item(&mut self, item: Item, item_id: ItemId)
        requires
            old(self).inv(),
            item_wf(item),
            old(self).items_view().dom().contains(item_id.0),
        ensures
            final(self).inv(),
            final(self).items_view() == old(self).items_view().insert(item_id.0, item),
            final(self).root() == old(self).root(),
            final(self).queue() == old(self).queue(),
            final(self).extra() == old(self).extra(),
            final(self).op_mode() == old(self).op_mode(),
            final(self).target() == old(self).target(),
            final(self).selection() == old(self).selection(),
            final(self).needs_update() == old(self).needs_update(),
            final(self).next_id_spec() == old(self).next_id_spec(),
    {
        self.items.insert(item_id.0, item);
    }
}


/// How removing a node changes the arena: the node's whole subtree leaves
/// the arena, and the node's entry in its parent's child list goes with it.
pub open spec fn spec_remove_rel(
    m0: Map<u32, Item>,
    root: ItemId,
    id: ItemId,
    m2: Map<u32, Item>,
) -> bool {
    let m1 = m0.remove_keys(subtree_ids(m0, id.0, m0.dom().len()).to_set());
    let parent = if id == root {
        None
    } else {
        spec_parent_in(m1, id, root, m1.dom().len())
    };
    match parent {
        None => m2 == m1,
        Some(pp) => detach_at(m1, pp.0, pp.1, m2),
    }
}

/// How moving a node changes the arena: unhooked from its parent when it has
/// one, then hooked into the target container, the position slipping back by
/// one when the unhooking happened earlier in the same container.
pub open spec fn spec_move_rel(
    m0: Map<u32, Item>,
    root: ItemId,
    id: ItemId,
    cid: ItemId,
    pos: int,
    m2: Map<u32, Item>,
) -> bool {
    if id == root {
        attach_rel(m0, id, cid, pos, m2)
    } else {
        match spec_parent_in(m0, id, root, m0.dom().len()) {
            None => attach_rel(m0, id, cid, pos, m2),
            Some(pp) => exists|mi: Map<u32, Item>|
                #[trigger] detach_at(m0, pp.0, pp.1, mi) && attach_rel(
                    mi,
                    id,
                    cid,
                    if pp.0 == cid && pp.1 < pos {
                        pos - 1
                    } else {
                        pos
                    },
                    m2,
                ),
        }
    }
}

/// Membership in one more taken element is membership before, or that
/// element.
proof fn lemma_take_push_contains(s: Seq<u32>, i: int, x: u32)
    requires
        0 <= i < s.len(),
    ensures
        s.take(i + 1).contains(x) <==> (s.take(i).contains(x) || x == s[i]),
{
    assert(s.take(i + 1) =~= s.take(i).push(s[i]));
    if s.take(i).contains(x) {
        let idx = choose|idx: int| 0 <= idx < s.take(i).len() && #[trigger] s.take(i)[idx] == x;
        assert(s.take(i + 1)[idx] == x);
    }
    if x == s[i] {
        assert(s.take(i + 1)[i] == x);
    }
    if s.take(i + 1).contains(x) {
        let idx = choose|idx: int|
            0 <= idx < s.take(i + 1).len() && #[trigger] s.take(i + 1)[idx] == x;
        if idx < i {
            assert(s.take(i)[idx] == x);
        }
    }
}

impl SdfBuilderTree {
    /// Collects the identifiers of the subtree under `id` onto `out`.
    fn collect_rec(&self, id: u32, out: &mut Vec<u32>, fuel: u64)
        ensures
            final(out)@ == old(out)@ + subtree_ids(self.items_view(), id, fuel as nat),
        decreases fuel,
    {
        let ghost m = self.items_view();
        if fuel == 0 {
            proof {
                assert(out@ =~= out@ + subtree_ids(m, id, 0));
            }
            return ;
        }
        match self.items.get(&id) {
            None => {
                proof {
                    assert(out@ =~= out@ + subtree_ids(m, id, fuel as nat));
                }
            },
            Some(item) => match item {
                Item::Shape(_, _) => {
                    out.push(id);
                    proof {
                        assert(out@ =~= old(out)@ + subtree_ids(m, id, fuel as nat));
                    }
                },
                Item::Operator(_, children) => {
                    out.push(id);
                    let ghost f = (fuel - 1) as nat;
                    let ghost entry = out@;
                    let ghost full = subtree_list(m, children@, f);
                    let n = children.len();
                    let mut j: usize = 0;
                    proof {
                        assert(children@.skip(0) =~= children@);
                    }
                    while j < n
                        invariant
                            0 <= j <= n,
                            n == children@.len(),
                            1 <= fuel,
                            f == (fuel - 1) as nat,
                            m == self.items_view(),
                            full == subtree_list(m, children@, f),
                            entry.len() <= out@.len(),
                            out@.subrange(0, entry.len() as int) == entry,
                            full == out@.skip(entry.len() as int) + subtree_list(
                                m,
                                children@.skip(j as int),
                                f,
                            ),
                        decreases n - j,
                    {
                        let ghost pre = out@;
                        let ghost rest = children@.skip(j as int);
                        proof {
                            assert(rest[0] == children@[j as int]);
                            assert(rest.drop_first() =~= children@.skip(j as int + 1));
                        }
                        let child = children[j];
                        self.collect_rec(child.0, out, fuel - 1);
                        proof {
                            assert(out@.subrange(0, entry.len() as int) =~= entry);
                            assert(out@.skip(entry.len() as int) =~= pre.skip(entry.len() as int)
                                + out@.skip(pre.len() as int));
                            assert(full =~= out@.skip(entry.len() as int) + subtree_list(
                                m,
                                children@.skip(j as int + 1),
                                f,
                            ));
                        }
                        j = j + 1;
                    }
                    proof {
                        assert(children@.skip(n as int) =~= Seq::<ItemId>::empty());
                        assert(subtree_list(m, children@.skip(n as int), f) =~= Seq::<
                            u32,
                        >::empty());
                        assert(full =~= out@.skip(entry.len() as int));
                        assert(out@ =~= entry + full);
                        assert(out@ =~= old(out)@ + subtree_ids(m, id, fuel as nat));
                    }
                },
            },
        }
    }

    /// Removes a node and, recursively, its whole subtree, and unhooks it
    /// from its parent; a missing node leaves the tree as it was.
    pub fn remove_item(&mut self, item_id: ItemId)
        requires
            old(self).inv(),
        ensures
            final(self).inv(),
            spec_remove_rel(
                old(self).items_view(),
                old(self).root(),
                item_id,
                final(self).items_view(),
            ),
            final(self).root() == old(self).root(),
            final(self).queue() == old(self).queue(),
            final(self).extra() == old(self).extra(),
            final(self).op_mode() == old(self).op_mode(),
            final(self).target() == old(self).target(),
            final(self).selection() == old(self).selection(),
            final(self).needs_update() == old(self).needs_update(),
            final(self).next_id_spec() == old(self).next_id_spec(),
    {
        let ghost m0 = self.items_view();
        let fuel = self.items.len() as u64;
        let mut collected: Vec<u32> = Vec::new();
        self.collect_rec(item_id.0, &mut collected, fuel);
        proof {
            assert(collected@ =~= subtree_ids(m0, item_id.0, fuel as nat));
        }
        let ghost m1 = m0.remove_keys(collected@.to_set());
        let total = collected.len();
        let mut i: usize = 0;
        proof {
            assert(collected@.take(0) =~= Seq::<u32>::empty());
        }
        while i < total
            invariant
                0 <= i <= total,
                total == collected@.len(),
                forall|k: u32|
                    #[trigger] self.items_view().dom().contains(k) ==> m0.dom().contains(k)
                        && self.items_view()[k] == m0[k],
                forall|k: u32|
                    m0.dom().contains(k) && !collected@.take(i as int).contains(k)
                        ==> #[trigger] self.items_view().dom().contains(k),
                forall|k: u32|
                    #[trigger] self.items_view().dom().contains(k) ==> !collected@.take(
                        i as int,
                    ).contains(k),
                self.root() == old(self).root(),
                self.queue() == old(self).queue(),
                self.extra() == old(self).extra(),
                self.op_mode() == old(self).op_mode(),
                self.target() == old(self).target(),
                self.selection() == old(self).selection(),
                self.needs_update() == old(self).needs_update(),
                self.next_id_spec() == old(self).next_id_spec(),
            decreases total - i,
        {
            let ghost mcur = self.items_view();
            let k = collected[i];
            self.items.remove(&k);
            proof {
                assert forall|x: u32| collected@.take(i as int + 1).contains(x) <==> (
                collected@.take(i as int).contains(x) || x == k) by {
                    lemma_take_push_contains(collected@, i as int, x);
                }
            }
            i = i + 1;
        }
        proof {
            assert(collected@.take(total as int) =~= collected@);
            assert(self.items_view() =~= m1);
        }
        match self.parent_and_pos(item_id) {
            Some(pp) => {
                let pid = pp.0;
                let pos = pp.1;
                proof {
                    lemma_parent_in_props(
                        self.items_view(),
                        item_id,
                        self.root(),
                        self.items_view().dom().len(),
                    );
                }
                let ghost mbefore = self.items_view();
                match self.items.remove(&pid.0) {
                    Some(c) => match c {
                        Item::Operator(op, children) => {
                            let mut children = children;
                            children.remove(pos);
                            self.items.insert(pid.0, Item::Operator(op, children));
                            proof {
                                assert(self.items_view().dom() =~= mbefore.dom());
                                assert(detach_at(mbefore, pid, pos as int, self.items_view()));
                            }
                        },
                        Item::Shape(s2, t2) => {
                            self.items.insert(pid.0, Item::Shape(s2, t2));
                        },
                    },
                    None => {},
                }
            },
            None => {},
        }
    }

    /// Moves a node: unhooks it from its current parent, then hooks it into
    /// the target container at the given position, adjusted by one when the
    /// removal within the same container shifted it.
    #[verifier::rlimit(50)]
    #[verifier::spinoff_prover]
    pub fn move_item(&mut self, item_id: ItemId, container_id: ItemId, pos: usize)
        requires
            old(self).inv(),
        ensures
            final(self).inv(),
            spec_move_rel(
                old(self).items_view(),
                old(self).root(),
                item_id,
                container_id,
                pos as int,
                final(self).items_view(),
            ),
            final(self).root() == old(self).root(),
            final(self).queue() == old(self).queue(),
            final(self).extra() == old(self).extra(),
            final(self).op_mode() == old(self).op_mode(),
            final(self).target() == old(self).target(),
            final(self).selection() == old(self).selection(),
            final(self).needs_update() == old(self).needs_update(),
            final(self).next_id_spec() == old(self).next_id_spec(),
    {
        let ghost m0 = self.items_view();
        let ghost pos0 = pos;
        let mut at_pos = pos;
        match self.parent_and_pos(item_id) {
            Some(pp) => {
                let spid = pp.0;
                let spos = pp.1;
                proof {
                    lemma_parent_in_props(m0, item_id, self.root(), m0.dom().len());
                }
                let ghost mbefore = self.items_view();
                match self.items.remove(&spid.0) {
                    Some(c) => match c {
                        Item::Operator(op, children) => {
                            let mut children = children;
                            children.remove(spos);
                            self.items.insert(spid.0, Item::Operator(op, children));
                            proof {
                                assert(self.items_view().dom() =~= mbefore.dom());
                                assert(detach_at(mbefore, spid, spos as int, self.items_view()));
                            }
                        },
                        Item::Shape(s2, t2) => {
                            self.items.insert(spid.0, Item::Shape(s2, t2));
                        },
                    },
                    None => {},
                }
                if spid.0 == container_id.0 && spos < at_pos {
                    at_pos = at_pos - 1;
                }
                proof {
                    assert(spid == container_id <==> spid.0 == container_id.0);
                    assert(detach_at(m0, spid, spos as int, self.items_view()));
                    assert(at_pos as int == if spid == container_id && (spos as int) < pos0 as int {
                        pos0 - 1
                    } else {
                        pos0 as int
                    });
                }
            },
            None => {},
        }
        let ghost mi = self.items_view();
        match self.items.remove(&container_id.0) {
            Some(c) => match c {
                Item::Operator(op, children) => {
                    let ghost before = mi[container_id.0];
                    let mut children = children;
                    let n = children.len();
                    let at = if at_pos <= n {
                        at_pos
                    } else {
                        n
                    };
                    children.insert(at, item_id);
                    self.items.insert(container_id.0, Item::Operator(op, children));
                    proof {
                        assert(self.items_view().dom() =~= mi.dom());
                        assert(child_list_insert(
                            before,
                            self.items_view()[container_id.0],
                            item_id,
                            at_pos as int,
                        ));
                        assert(attach_rel(
                            mi,
                            item_id,
                            container_id,
                            at_pos as int,
                            self.items_view(),
                        ));
                    }
                },
                Item::Shape(s2, t2) => {
                    self.items.insert(container_id.0, Item::Shape(s2, t2));
                    proof {
                        assert(self.items_view() =~= mi);
                    }
                },
            },
            None => {
                proof {
                    assert(self.items_view() =~= mi);
                }
            },
        }
        proof {
            let m2 = self.items_view();
            assert(attach_rel(mi, item_id, container_id, at_pos as int, m2));
            if item_id == old(self).root() {
                assert(mi == m0);
                assert(at_pos == pos0);
            } else {
                match spec_parent_in(m0, item_id, old(self).root(), m0.dom().len()) {
                    Some(pp) => {
                        assert(detach_at(m0, pp.0, pp.1, mi));
                        assert(at_pos as int == if pp.0 == container_id && pp.1 < pos0 as int {
                            pos0 - 1
                        } else {
                            pos0 as int
                        });
                    },
                    None => {
                        assert(mi == m0);
                        assert(at_pos == pos0);
                    },
                }
            }
            assert(spec_move_rel(m0, old(self).root(), item_id, container_id, pos0 as int, m2));
        }
    }
}


/// The editor-visible state of the tree, apart from the queue itself: what
/// one command reads and changes.
pub struct TreeState {
    pub items: Map<u32, Item>,
    pub root: ItemId,
    pub selected: SelectedItem,
    pub target: Option<ItemId>,
    pub extra: Option<(Shape, Transform)>,
    pub mode: Operator,
    pub needs_update: bool,
}

/// What one command does to the state. Tree edits mark the grid stale; an
/// ill-formed item, or an edit of a missing node, is refused and leaves
/// everything unchanged.
pub open spec fn cmd_rel(s0: TreeState, c: Command, s1: TreeState) -> bool {
    match c {
        Command::SetSelectedItem(si) => s1 == (TreeState { selected: si, ..s0 }),
        Command::MoveItem { moved_item_id, target_container_id, target_position_index } => {
            &&& spec_move_rel(
                s0.items,
                s0.root,
                moved_item_id,
                target_container_id,
                target_position_index as int,
                s1.items,
            )
            &&& s1 == (TreeState { items: s1.items, needs_update: true, ..s0 })
        },
        Command::AddItem { item, new_item_id, target_container_id, target_position_index } => {
            if item_wf(item) {
                &&& spec_add_rel(
                    s0.items,
                    item,
                    new_item_id,
                    target_container_id,
                    target_position_index as int,
                    s1.items,
                )
                &&& s1 == (TreeState { items: s1.items, needs_update: true, ..s0 })
            } else {
                s1 == s0
            }
        },
        Command::EditItem { item, item_id } => {
            if item_wf(item) && s0.items.dom().contains(item_id.0) {
                &&& s1.items == s0.items.insert(item_id.0, item)
                &&& s1 == (TreeState { items: s1.items, needs_update: true, ..s0 })
            } else {
                s1 == s0
            }
        },
        Command::RemoveItem { item_id } => {
            &&& spec_remove_rel(s0.items, s0.root, item_id, s1.items)
            &&& s1 == (TreeState { items: s1.items, needs_update: true, ..s0 })
        },
        Command::HighlightTargetContainer(item_id) => s1 == (TreeState {
            target: Some(item_id),
            ..s0
        }),
    }
}

/// Draining commands in order: each one steps the state.
pub open spec fn drain_rel(s0: TreeState, cmds: Seq<Command>, s1: TreeState) -> bool
    decreases cmds.len(),
{
    if cmds.len() == 0 {
        s1 == s0
    } else {
        exists|mid: TreeState|
            #[trigger] cmd_rel(s0, cmds[0], mid) && drain_rel(mid, cmds.drop_first(), s1)
    }
}

/// Draining one more command extends the drained prefix.
pub proof fn lemma_drain_snoc(
    s0: TreeState,
    cmds: Seq<Command>,
    s1: TreeState,
    c: Command,
    s2: TreeState,
)
    requires
        drain_rel(s0, cmds, s1),
        cmd_rel(s1, c, s2),
    ensures
        drain_rel(s0, cmds.push(c), s2),
    decreases cmds.len(),
{
    if cmds.len() == 0 {
        assert(cmds.push(c)[0] == c);
        assert(cmds.push(c).drop_first() =~= Seq::<Command>::empty());
        assert(cmd_rel(s0, c, s2) && drain_rel(s2, cmds.push(c).drop_first(), s2));
    } else {
        let mid = choose|mid: TreeState|
            #[trigger] cmd_rel(s0, cmds[0], mid) && drain_rel(mid, cmds.drop_first(), s1);
        lemma_drain_snoc(mid, cmds.drop_first(), s1, c, s2);
        assert(cmds.push(c)[0] == cmds[0]);
        assert(cmds.push(c).drop_first() =~= cmds.drop_first().push(c));
        assert(cmd_rel(s0, cmds.push(c)[0], mid) && drain_rel(mid, cmds.push(c).drop_first(), s2));
    }
}

impl SdfBuilderTree {
    /// The state one command reads and changes.
    pub open spec fn state(&self) -> TreeState {
        TreeState {
            items: self.items_view(),
            root: self.root(),
            selected: self.selection(),
            target: self.target(),
            extra: self.extra(),
            mode: self.op_mode(),
            needs_update: self.needs_update(),
        }
    }

    /// Applies one command to the tree.
    pub fn apply_command(&mut self, command: Command)
        requires
            old(self).inv(),
        ensures
            final(self).inv(),
            cmd_rel(old(self).state(), command, final(self).state()),
            final(self).queue() == old(self).queue(),
            final(self).root() == old(self).root(),
            final(self).next_id_spec() == old(self).next_id_spec(),
    {
        match command {
            Command::SetSelectedItem(selected_item) => {
                self.selected_item = selected_item;
            },
            Command::MoveItem { moved_item_id, target_container_id, target_position_index } => {
                self.move_item(moved_item_id, target_container_id, target_position_index);
                self.grid_needs_updating = true;
            },
            Command::AddItem { item, new_item_id, target_container_id, target_position_index } => {
                if item.check_wf() {
                    self.add_item(item, new_item_id, target_container_id, target_position_index);
                    self.grid_needs_updating = true;
                }
            },
            Command::EditItem { item, item_id } => {
                if item.check_wf() && self.items.contains_key(&item_id.0) {
                    self.edit_item(item, item_id);
                    self.grid_needs_updating = true;
                }
            },
            Command::RemoveItem { item_id } => {
                self.remove_item(item_id);
                self.grid_needs_updating = true;
            },
            Command::HighlightTargetContainer(item_id) => {
                self.target_container = Some(item_id);
            },
        }
    }

    /// Drains the whole queue in first-in, first-out order, stepping the
    /// state by each command in turn; one edit cycle's worth of batched
    /// edits ends up as a single recompute of the grid.
    pub fn process_commands(&mut self)
        requires
            old(self).inv(),
        ensures
            final(self).inv(),
            final(self).queue().len() == 0,
            drain_rel(old(self).state(), old(self).queue(), final(self).state()),
            final(self).root() == old(self).root(),
            final(self).next_id_spec() == old(self).next_id_spec(),
    {
        let ghost q0 = self.queue();
        let ghost s0 = self.state();
        let mut i: usize = 0;
        let total = self.commands.len();
        proof {
            assert(q0.take(0) =~= Seq::<Command>::empty());
        }
        while i < total
            invariant
                0 <= i <= total,
                total == q0.len(),
                self.inv(),
                self.queue() == q0.skip(i as int),
                drain_rel(s0, q0.take(i as int), self.state()),
                self.root() == old(self).root(),
                self.next_id_spec() == old(self).next_id_spec(),
            decreases total - i,
        {
            let ghost smid = self.state();
            proof {
                assert(q0.skip(i as int)[0] == q0[i as int]);
                assert(q0.skip(i as int).drop_first() =~= q0.skip(i as int + 1));
            }
            let command = self.commands.remove(0);
            self.apply_command(command);
            proof {
                lemma_drain_snoc(s0, q0.take(i as int), smid, command, self.state());
                assert(q0.take(i as int).push(command) =~= q0.take(i as int + 1));
            }
            i = i + 1;
        }
        proof {
            assert(q0.take(total as int) =~= q0);
            assert(q0.skip(total as int) =~= Seq::<Command>::empty());
        }
    }

    /// Records the drag-preview shape hovering over the scene, marking the
    /// grid stale when it changed.
    pub fn set_extra_item(&mut self, extra_item: Option<(Shape, Transform)>)
        requires
            old(self).inv(),
            match extra_item {
                None => true,
                Some((s, t)) => s.wf() && t.position.within(COORD_MAX as int),
            },
        ensures
            final(self).inv(),
            final(self).extra() == extra_item,
            final(self).needs_update() == (old(self).needs_update() || extra_item != old(
                self,
            ).extra()),
            final(self).items_view() == old(self).items_view(),
            final(self).root() == old(self).root(),
            final(self).queue() == old(self).queue(),
            final(self).op_mode() == old(self).op_mode(),
            final(self).target() == old(self).target(),
            final(self).selection() == old(self).selection(),
            final(self).next_id_spec() == old(self).next_id_spec(),
    {
        let changed = match (&extra_item, &self.extra_item) {
            (None, None) => false,
            (Some(a), Some(b)) => !(a.0 == b.0 && a.1 == b.1),
            _ => true,
        };
        if changed {
            self.extra_item = extra_item;
            self.grid_needs_updating = true;
        } else {
            proof {
                assert(extra_item == self.extra());
            }
        }
    }

    /// Sets the operator a dropped preview will combine with.
    pub fn set_operator_mode(&mut self, mode: Operator)
        ensures
            final(self).op_mode() == mode,
            final(self).items_view() == old(self).items_view(),
            final(self).root() == old(self).root(),
            final(self).queue() == old(self).queue(),
            final(self).extra() == old(self).extra(),
            final(self).target() == old(self).target(),
            final(self).selection() == old(self).selection(),
            final(self).needs_update() == old(self).needs_update(),
            final(self).next_id_spec() == old(self).next_id_spec(),
            old(self).inv() ==> final(self).inv(),
    {
        self.operator_mode = mode;
    }
}


/// How dropping the drag preview changes the arena. In union mode, or while
/// the scene is still empty, the shape simply becomes the root's first
/// child. In any other mode the whole current scene is regrouped: the root
/// keeps a single new operator node that combines the old scene (wrapped in
/// a fresh union node) with the dropped shape.
pub open spec fn spec_place_rel(
    m0: Map<u32, Item>,
    root: ItemId,
    mode: Operator,
    shape: Shape,
    transform: Transform,
    item_id: ItemId,
    op_id: ItemId,
    union_id: ItemId,
    m2: Map<u32, Item>,
) -> bool {
    if mode == Operator::Union || m0.dom().len() <= 1 {
        spec_add_rel(m0, Item::Shape(shape, transform), item_id, root, 0, m2)
    } else if is_container(m0, root) {
        &&& m2.dom() =~= m0.dom().insert(op_id.0).insert(union_id.0).insert(item_id.0)
        &&& match m0[root.0] {
            Item::Operator(op0, kids0) => {
                &&& (m2[root.0] matches Item::Operator(opx, kidsx) && opx == op0 && kidsx@ =~= seq![
                    op_id,
                ])
                &&& (m2[union_id.0] matches Item::Operator(opu, kidsu) && opu == Operator::Union
                    && kidsu@ == kids0@)
            },
            Item::Shape(_, _) => false,
        }
        &&& (m2[op_id.0] matches Item::Operator(opc, kidsc) && opc == mode && kidsc@ =~= seq![
            union_id,
            item_id,
        ])
        &&& m2[item_id.0] == (Item::Shape(shape, transform))
        &&& forall|k: u32|
            m0.dom().contains(k) && k != root.0 && k != op_id.0 && k != union_id.0 && k
                != item_id.0 ==> m2[k] == #[trigger] m0[k]
    } else {
        m2 == m0
    }
}

impl SdfBuilderTree {
    /// Commits the drag preview as a real node. The three identifiers must
    /// be fresh and distinct, as the allocator provides them.
    pub fn place_extra_item(
        &mut self,
        shape: Shape,
        transform: Transform,
        item_id: ItemId,
        op_id: ItemId,
        union_id: ItemId,
    )
        requires
            old(self).inv(),
            shape.wf(),
            transform.position.within(COORD_MAX as int),
            item_id.0 != old(self).root().0,
            op_id.0 != old(self).root().0,
            union_id.0 != old(self).root().0,
            item_id.0 != op_id.0,
            item_id.0 != union_id.0,
            op_id.0 != union_id.0,
        ensures
            final(self).inv(),
            spec_place_rel(
                old(self).items_view(),
                old(self).root(),
                old(self).op_mode(),
                shape,
                transform,
                item_id,
                op_id,
                union_id,
                final(self).items_view(),
            ),
            final(self).root() == old(self).root(),
            final(self).queue() == old(self).queue(),
            final(self).extra() == old(self).extra(),
            final(self).op_mode() == old(self).op_mode(),
            final(self).target() == old(self).target(),
            final(self).selection() == old(self).selection(),
            final(self).needs_update() == old(self).needs_update(),
            final(self).next_id_spec() == old(self).next_id_spec(),
    {
        let ghost m0 = self.items_view();
        let is_union = match self.operator_mode {
            Operator::Union => true,
            Operator::Intersect => false,
            Operator::Subtract => false,
            Operator::Xor => false,
        };
        proof {
            assert(is_union == (self.op_mode() == Operator::Union));
        }
        if is_union || self.items.len() <= 1 {
            let root = self.root_id;
            self.add_item(Item::Shape(shape, transform), item_id, root, 0);
        } else {
            match self.items.remove(&self.root_id.0) {
                Some(c) => match c {
                    Item::Operator(op0, kids0) => {
                        let mut newkids: Vec<ItemId> = Vec::new();
                        newkids.push(op_id);
                        self.items.insert(self.root_id.0, Item::Operator(op0, newkids));
                        let mut ckids: Vec<ItemId> = Vec::new();
                        ckids.push(union_id);
                        ckids.push(item_id);
                        let mode_now = self.operator_mode;
                        self.items.insert(op_id.0, Item::Operator(mode_now, ckids));
                        self.items.insert(union_id.0, Item::Operator(Operator::Union, kids0));
                        self.items.insert(item_id.0, Item::Shape(shape, transform));
                        proof {
                            assert(self.items_view().dom() =~= m0.dom().insert(op_id.0).insert(
                                union_id.0,
                            ).insert(item_id.0));
                        }
                    },
                    Item::Shape(s2, t2) => {
                        self.items.insert(self.root_id.0, Item::Shape(s2, t2));
                        proof {
                            assert(self.items_view() =~= m0);
                        }
                    },
                },
                None => {
                    proof {
                        assert(self.items_view() =~= m0);
                    }
                },
            }
        }
    }
}


/// The tree's own bottom-up meaning at a point: a leaf is its tagged
/// distance, an operator folds its value-producing children in reverse
/// order, and a missing node, an exhausted recursion bound, or an operator
/// with no producing children means no value.
pub open spec fn eval_node(m: Map<u32, Item>, id: u32, p: Point, fuel: nat) -> Option<IdAndDistance>
    decreases fuel, 0int,
{
    if fuel == 0 {
        None
    } else if !m.dom().contains(id) {
        None
    } else {
        match m[id] {
            Item::Shape(s, t) => Some(leaf_val_id(s, ItemId(id), t, p)),
            Item::Operator(op, children) => eval_list(
                m,
                op,
                children@.reverse(),
                None,
                p,
                (fuel - 1) as nat,
            ),
        }
    }
}

/// Folds a child list into an accumulator: the first producing child seeds
/// it, each later one is combined by the operator.
pub open spec fn eval_list(
    m: Map<u32, Item>,
    op: Operator,
    ids: Seq<ItemId>,
    acc: Option<IdAndDistance>,
    p: Point,
    fuel: nat,
) -> Option<IdAndDistance>
    decreases fuel, ids.len(),
{
    if ids.len() == 0 {
        acc
    } else {
        let c = eval_node(m, ids[0].0, p, fuel);
        let acc2 = match acc {
            None => c,
            Some(a) => match c {
                None => Some(a),
                Some(v) => Some(spec_operate_id(op, a, v)),
            },
        };
        eval_list(m, op, ids.drop_first(), acc2, p, fuel)
    }
}

/// The compiler is faithful: running the tape compiled from a node pushes
/// exactly the node's bottom-up value, and pushes nothing when the node
/// collapses.
pub proof fn lemma_gen_eval(m: Map<u32, Item>, id: u32, fuel: nat, p: Point, st: Seq<IdAndDistance>)
    ensures
        ({
            let (tape, prod) = spec_gen(m, id, fuel);
            match eval_node(m, id, p, fuel) {
                Some(v) => prod && run_id(tape, p, st) == st.push(v),
                None => !prod && tape.len() == 0 && run_id(tape, p, st) == st,
            }
        }),
    decreases fuel, 0int,
{
    if fuel == 0 || !m.dom().contains(id) {
    } else {
        match m[id] {
            Item::Shape(s, t) => {
                let (tape, prod) = spec_gen(m, id, fuel);
                assert(tape[0] == (InstructionForId::Shape(s, ItemId(id), t)));
                assert(tape.drop_first() =~= Seq::<InstructionForId>::empty());
                let stepped = step_id(tape[0], p, st);
                assert(stepped == st.push(leaf_val_id(s, ItemId(id), t, p)));
                assert(run_id(tape, p, st) == run_id(tape.drop_first(), p, stepped));
                assert(run_id(tape.drop_first(), p, stepped) == stepped);
            },
            Item::Operator(op, children) => {
                lemma_gen_list_eval(m, op, id, children@.reverse(), 0, (fuel - 1) as nat, p, st);
            },
        }
    }
}

/// The list form: compiling a child list on top of the accumulator carried
/// as the stack's top value runs to the folded accumulator.
pub proof fn lemma_gen_list_eval(
    m: Map<u32, Item>,
    op: Operator,
    oid: u32,
    ids: Seq<ItemId>,
    count: nat,
    fuel: nat,
    p: Point,
    st: Seq<IdAndDistance>,
)
    requires
        count >= 1 ==> st.len() >= 1,
    ensures
        ({
            let (tape, fin) = spec_gen_list(m, op, oid, ids, count, fuel);
            let acc = if count >= 1 {
                Some(st.last())
            } else {
                None
            };
            let below = if count >= 1 {
                st.drop_last()
            } else {
                st
            };
            match eval_list(m, op, ids, acc, p, fuel) {
                Some(v) => fin >= 1 && run_id(tape, p, st) == below.push(v),
                None => fin == 0 && count == 0 && tape.len() == 0 && run_id(tape, p, st) == st,
            }
        }),
    decreases fuel, ids.len(),
{
    let (tape, fin) = spec_gen_list(m, op, oid, ids, count, fuel);
    let acc = if count >= 1 {
        Some(st.last())
    } else {
        None
    };
    let below = if count >= 1 {
        st.drop_last()
    } else {
        st
    };
    if ids.len() == 0 {
        if count >= 1 {
            assert(run_id(tape, p, st) == st);
            assert(st =~= below.push(st.last()));
        }
    } else {
        let (ctape, cprod) = spec_gen(m, ids[0].0, fuel);
        lemma_gen_eval(m, ids[0].0, fuel, p, st);
        let here = if cprod && count >= 1 {
            ctape + seq![InstructionForId::Operator(op, ItemId(oid))]
        } else {
            ctape
        };
        let ncount: nat = if cprod {
            count + 1
        } else {
            count
        };
        let (rest, fin2) = spec_gen_list(m, op, oid, ids.drop_first(), ncount, fuel);
        assert(tape == here + rest);
        lemma_run_id_cat(here, rest, p, st);
        let c = eval_node(m, ids[0].0, p, fuel);
        let acc2 = match acc {
            None => c,
            Some(a) => match c {
                None => Some(a),
                Some(v) => Some(spec_operate_id(op, a, v)),
            },
        };
        let st2 = run_id(here, p, st);
        if cprod && count >= 1 {
            let v = match c {
                Some(v) => v,
                None => IdAndDistance { d: 0, id: ItemId(0) },
            };
            assert(run_id(ctape, p, st) == st.push(v));
            let opseq = seq![InstructionForId::Operator(op, ItemId(oid))];
            lemma_run_id_cat(ctape, opseq, p, st);
            assert(here =~= ctape + opseq);
            assert(opseq.drop_first() =~= Seq::<InstructionForId>::empty());
            let pushed = st.push(v);
            assert(pushed[pushed.len() - 2] == st.last() && pushed[pushed.len() - 1] == v);
            assert(opseq[0] == (InstructionForId::Operator(op, ItemId(oid))));
            let stepped = step_id(opseq[0], p, pushed);
            assert(stepped == pushed.drop_last().drop_last().push(
                spec_operate_id(op, pushed[pushed.len() - 2], pushed[pushed.len() - 1]),
            ));
            assert(run_id(opseq, p, pushed) == run_id(opseq.drop_first(), p, stepped));
            assert(run_id(opseq.drop_first(), p, stepped) == stepped);
            assert(pushed.drop_last() =~= st);
            assert(st2 == st.drop_last().push(spec_operate_id(op, st.last(), v)));
            assert(st2.len() >= 1 && st2.last() == spec_operate_id(op, st.last(), v));
            assert(st2.drop_last() =~= below);
        } else if cprod {
            let v = match c {
                Some(v) => v,
                None => IdAndDistance { d: 0, id: ItemId(0) },
            };
            assert(here == ctape);
            assert(st2 == st.push(v));
            assert(st2.len() >= 1 && st2.last() == v);
            assert(st2.drop_last() =~= st);
        } else {
            assert(here == ctape && ctape.len() == 0);
            assert(here =~= Seq::<InstructionForId>::empty());
            assert(st2 == st);
        }
        lemma_gen_list_eval(m, op, oid, ids.drop_first(), ncount, fuel, p, st2);
    }
}

/// A node that produces no value — missing, an exhausted bound, or an
/// operator none of whose children produces one — compiles to the empty tape
/// and signals so.
pub proof fn lemma_collapsed_node_emits_nothing(m: Map<u32, Item>, id: u32, fuel: nat, p: Point)
    requires
        eval_node(m, id, p, fuel) is None,
    ensures
        spec_gen(m, id, fuel).0.len() == 0,
        !spec_gen(m, id, fuel).1,
{
    lemma_gen_eval(m, id, fuel, p, Seq::<IdAndDistance>::empty());
}

/// The compiled tape, run from an empty stack, leaves exactly the tree's
/// value; the picker therefore answers with the owning node the tree
/// evaluation names, and nothing when the scene collapses to nothing.
pub proof fn lemma_compiler_correct(m: Map<u32, Item>, id: u32, fuel: nat, p: Point)
    ensures
        ({
            let (tape, prod) = spec_gen(m, id, fuel);
            match eval_node(m, id, p, fuel) {
                Some(v) => prod && run_id(tape, p, Seq::<IdAndDistance>::empty()) =~= seq![v]
                    && crate::instructions::eval_id(tape, p) == Some(v.id),
                None => !prod && tape.len() == 0 && crate::instructions::eval_id(tape, p)
                    is None,
            }
        }),
{
    lemma_gen_eval(m, id, fuel, p, Seq::<IdAndDistance>::empty());
    let (tape, prod) = spec_gen(m, id, fuel);
    match eval_node(m, id, p, fuel) {
        Some(v) => {
            assert(run_id(tape, p, Seq::<IdAndDistance>::empty()) =~= seq![v]);
            assert(tape.len() > 0) by {
                if tape.len() == 0 {
                    assert(run_id(tape, p, Seq::<IdAndDistance>::empty()) == Seq::<
                        IdAndDistance,
                    >::empty());
                }
            }
            assert(run_id(tape, p, Seq::<IdAndDistance>::empty()).last() == v);
        },
        None => {},
    }
}


/// The renderer shows the tree: the plain tape compiled from a node, run by
/// the renderer's interpreter, computes exactly the scalar of the node's
/// bottom-up value, and the divergent sentinel when the node collapses.
pub proof fn lemma_scene_distance(m: Map<u32, Item>, id: u32, fuel: nat, p: Point)
    requires
        arena_wf(m),
        p.within(2 * COORD_MAX as int),
    ensures
        ({
            let tape = spec_gen(m, id, fuel).0;
            let plain = crate::instructions::eval_stripped(tape, p);
            match eval_node(m, id, p, fuel) {
                Some(v) => plain == v.d,
                None => plain == crate::sdf::DIVERGENT,
            }
        }),
{
    let (tape, prod) = spec_gen(m, id, fuel);
    let stripped = tape.map_values(|i: InstructionForId| strip_id(i));
    lemma_gen_tape_wf(m, id, fuel);
    lemma_compiler_correct(m, id, fuel, p);
    match eval_node(m, id, p, fuel) {
        Some(v) => {
            assert(tape.len() > 0);
            crate::instructions::lemma_picker_matches_renderer(tape, p);
            assert(run_id(tape, p, Seq::<IdAndDistance>::empty()).last() == v);
        },
        None => {
            assert(stripped =~= Seq::<Instruction>::empty());
        },
    }
}


/// What the drag preview means to the renderer: folding it over a non-empty
/// scene evaluates to the operator mode applied to the preview's distance
/// (left) and the scene's (right); over an empty scene it is the preview
/// alone.
pub proof fn lemma_with_extra_eval(
    base: Seq<Instruction>,
    shape: Shape,
    transform: Transform,
    mode: Operator,
    p: Point,
)
    requires
        tape_wf(base),
        p.within(2 * COORD_MAX as int),
    ensures
        base.len() > 0 ==> crate::sdf_interpreter::eval_tape(
            spec_with_extra(base, Some((shape, transform)), mode),
            p,
        ) == crate::sdf_interpreter::spec_operate::<i64>(
            mode,
            crate::sdf_interpreter::leaf_val(shape, transform, p),
            crate::sdf_interpreter::eval_tape(base, p),
        ),
        base.len() == 0 ==> crate::sdf_interpreter::eval_tape(
            spec_with_extra(base, Some((shape, transform)), mode),
            p,
        ) == crate::sdf_interpreter::leaf_val(shape, transform, p),
{
    let leaf = seq![Instruction::Sdf(shape, transform)];
    let v = crate::sdf_interpreter::leaf_val(shape, transform, p);
    let whole = spec_with_extra(base, Some((shape, transform)), mode);
    if base.len() == 0 {
        assert(whole == leaf);
        assert(leaf.drop_first() =~= Seq::<Instruction>::empty());
        let st1 = step(leaf[0], p, Seq::<i64>::empty());
        assert(st1 =~= seq![v]);
        assert(run(leaf.drop_first(), p, st1) == st1);
        assert(run(leaf, p, Seq::<i64>::empty()) == st1);
    } else {
        let opseq = seq![Instruction::Operator(mode)];
        assert(whole =~= leaf + (base + opseq));
        crate::sdf_interpreter::lemma_run_cat(leaf, base + opseq, p, Seq::<i64>::empty());
        crate::sdf_interpreter::lemma_run_cat(base, opseq, p, seq![v]);
        assert(leaf.drop_first() =~= Seq::<Instruction>::empty());
        let st1 = step(leaf[0], p, Seq::<i64>::empty());
        assert(st1 =~= seq![v]);
        assert(run(leaf.drop_first(), p, st1) == st1);
        assert(run(leaf, p, Seq::<i64>::empty()) == st1);
        crate::sdf_interpreter::lemma_run_props(base, p, Seq::<i64>::empty());
        let run0 = run(base, p, Seq::<i64>::empty());
        assert(run0.len() == 1);
        let sv = crate::sdf_interpreter::eval_tape(base, p);
        assert(sv == run0.last());
        // the base only reads the stack it has pushed, so the seeded value
        // below it survives untouched
        assert(seq![v].skip(1) =~= Seq::<i64>::empty());
        lemma_run_on_deeper_stack(base, p, seq![v], Seq::<i64>::empty());
        let after_base = run(base, p, seq![v]);
        assert(seq![v].take(1) =~= seq![v]);
        assert(after_base =~= seq![v] + run0);
        assert(after_base =~= seq![v].push(sv));
        let st2 = step(opseq[0], p, after_base);
        assert(after_base[after_base.len() - 2] == v && after_base[after_base.len() - 1] == sv);
        assert(st2 =~= seq![crate::sdf_interpreter::spec_operate::<i64>(mode, v, sv)]);
        assert(opseq.drop_first() =~= Seq::<Instruction>::empty());
        assert(run(opseq.drop_first(), p, st2) == st2);
        assert(run(opseq, p, after_base) == st2);
    }
}

/// A tape whose operators all find operands among its own pushes leaves any
/// starting stack untouched below, appending what it appends to the empty
/// stack.
pub proof fn lemma_run_on_deeper_stack(
    tape: Seq<Instruction>,
    p: Point,
    st: Seq<i64>,
    st0: Seq<i64>,
)
    requires
        depths_ok(tape, st0.len() as int),
        st0.len() <= st.len(),
        st.skip((st.len() - st0.len()) as int) =~= st0,
    ensures
        run(tape, p, st) =~= st.take((st.len() - st0.len()) as int) + run(tape, p, st0),
    decreases tape.len(),
{
    let keep = (st.len() - st0.len()) as int;
    if tape.len() == 0 {
        assert(st =~= st.take(keep) + st0);
    } else {
        let st2 = step(tape[0], p, st);
        let st02 = step(tape[0], p, st0);
        match tape[0] {
            Instruction::Operator(op) => {
                assert(st[st.len() - 1] == st0[st0.len() - 1] && st[st.len() - 2] == st0[st0.len()
                    - 2]) by {
                    assert(st.skip(keep)[st0.len() - 1] == st[st.len() - 1]);
                    assert(st.skip(keep)[st0.len() - 2] == st[st.len() - 2]);
                }
                assert(st2.skip((st2.len() - st02.len()) as int) =~= st02);
                assert(st2.take((st2.len() - st02.len()) as int) =~= st.take(keep));
            },
            Instruction::Sdf(sh, t) => {
                assert(st2.skip((st2.len() - st02.len()) as int) =~= st02);
                assert(st2.take((st2.len() - st02.len()) as int) =~= st.take(keep));
            },
        }
        lemma_run_on_deeper_stack(tape.drop_first(), p, st2, st02);
        assert(run(tape, p, st) == run(tape.drop_first(), p, st2));
        assert(run(tape, p, st0) == run(tape.drop_first(), p, st02));
    }
}


} // verus!
