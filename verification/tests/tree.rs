use sdf_builder::instructions::{id_of_signed_distance, InstructionForId};
use sdf_builder::math::Point;
use sdf_builder::primitives::Disk;
use sdf_builder::primitives_enum::Shape;
use sdf_builder::sdf::Sdf;
use sdf_builder::sdf_builder_tree::{Command, Item, ItemId, SdfBuilderTree, SelectedItem};
use sdf_builder::sdf_interpreter::{Instruction, Operator, SdfInstructions, Transform};

fn leaf(radius: i64) -> Item {
    Item::Shape(Shape::Disk(Disk::new(radius)), Transform::default())
}

fn add(tree: &mut SdfBuilderTree, id: u32, parent: u32, item: Item) {
    tree.send_command(Command::AddItem {
        item,
        new_item_id: ItemId(id),
        target_container_id: ItemId(parent),
        target_position_index: usize::MAX,
    });
}

#[test]
fn empty_tree_compiles_to_empty_tape() {
    let tree = SdfBuilderTree::new();
    let (instructions, for_id) = tree.generate_instructions();
    assert_eq!(instructions.len(), 0);
    assert_eq!(for_id.len(), 0);
}

#[test]
fn operator_with_one_leaf_collapses() {
    let mut tree = SdfBuilderTree::new();
    add(
        &mut tree,
        10,
        1,
        Item::Operator(Operator::Intersect, Vec::new()),
    );
    add(&mut tree, 11, 10, leaf(6554));
    tree.process_commands();
    let (instructions, for_id) = tree.generate_instructions();
    assert_eq!(instructions.len(), 1);
    assert_eq!(for_id.len(), 1);
    assert!(matches!(instructions[0], Instruction::Sdf(_, _)));
    assert!(matches!(for_id[0], InstructionForId::Shape(_, ItemId(11), _)));
}

#[test]
fn operator_with_two_leaves_emits_postfix() {
    let mut tree = SdfBuilderTree::new();
    add(&mut tree, 10, 1, leaf(6554));
    add(&mut tree, 11, 1, leaf(13107));
    tree.process_commands();
    let (instructions, for_id) = tree.generate_instructions();
    assert_eq!(instructions.len(), 3);
    assert!(matches!(instructions[0], Instruction::Sdf(_, _)));
    assert!(matches!(instructions[1], Instruction::Sdf(_, _)));
    assert!(matches!(
        instructions[2],
        Instruction::Operator(Operator::Union)
    ));
    assert_eq!(for_id.len(), 3);
}

#[test]
fn dangling_child_is_skipped() {
    let mut tree = SdfBuilderTree::new();
    add(&mut tree, 10, 1, leaf(6554));
    tree.process_commands();
    tree.apply_command(Command::MoveItem {
        moved_item_id: ItemId(99),
        target_container_id: ItemId(1),
        target_position_index: 0,
    });
    let (instructions, _) = tree.generate_instructions();
    assert_eq!(instructions.len(), 1);
}

#[test]
fn remove_operator_removes_descendants() {
    let mut tree = SdfBuilderTree::new();
    add(
        &mut tree,
        10,
        1,
        Item::Operator(Operator::Union, Vec::new()),
    );
    add(&mut tree, 11, 10, leaf(6554));
    add(&mut tree, 12, 10, leaf(13107));
    tree.process_commands();
    tree.apply_command(Command::RemoveItem { item_id: ItemId(10) });
    let (instructions, for_id) = tree.generate_instructions();
    assert_eq!(instructions.len(), 0);
    assert_eq!(for_id.len(), 0);
    assert!(tree.grid_needs_updating);
}

#[test]
fn edit_changes_evaluation() {
    let mut tree = SdfBuilderTree::new();
    add(&mut tree, 10, 1, leaf(6554));
    tree.process_commands();
    tree.apply_command(Command::EditItem {
        item: leaf(13107),
        item_id: ItemId(10),
    });
    let (instructions, _) = tree.generate_instructions();
    let sdf = SdfInstructions::new(&instructions);
    assert_eq!(sdf.signed_distance(Point::new(0, 0)), -13107);
}

#[test]
fn move_item_reorders_children() {
    let mut tree = SdfBuilderTree::new();
    add(&mut tree, 10, 1, leaf(1000));
    add(&mut tree, 11, 1, leaf(2000));
    tree.process_commands();
    // children are [10, 11]: each add appended at the end
    tree.apply_command(Command::MoveItem {
        moved_item_id: ItemId(11),
        target_container_id: ItemId(1),
        target_position_index: 0,
    });
    let (_, for_id) = tree.generate_instructions();
    // reversed child order puts the last child first on the tape
    assert!(matches!(for_id[0], InstructionForId::Shape(_, ItemId(10), _)));
    assert!(matches!(for_id[1], InstructionForId::Shape(_, ItemId(11), _)));
}

#[test]
fn contains_walks_the_subtree() {
    let mut tree = SdfBuilderTree::new();
    add(
        &mut tree,
        10,
        1,
        Item::Operator(Operator::Xor, Vec::new()),
    );
    add(&mut tree, 11, 10, leaf(6554));
    tree.process_commands();
    assert!(tree.contains(ItemId(1), ItemId(11)));
    assert!(tree.contains(ItemId(10), ItemId(11)));
    assert!(tree.contains(ItemId(10), ItemId(10)));
    assert!(!tree.contains(ItemId(11), ItemId(10)));
    assert!(!tree.contains(ItemId(10), ItemId(99)));
}

#[test]
fn selection_commands() {
    let mut tree = SdfBuilderTree::new();
    add(&mut tree, 10, 1, leaf(6554));
    tree.process_commands();
    tree.apply_command(Command::SetSelectedItem(SelectedItem::of(ItemId(10))));
    assert!(matches!(tree.get_selected_item(), Some(Item::Shape(_, _))));
    tree.apply_command(Command::SetSelectedItem(SelectedItem::none()));
    assert!(tree.get_selected_item().is_none());
    tree.apply_command(Command::HighlightTargetContainer(ItemId(1)));
}

#[test]
fn ill_formed_item_is_refused() {
    let mut tree = SdfBuilderTree::new();
    tree.apply_command(Command::AddItem {
        item: leaf(i64::MAX),
        new_item_id: ItemId(10),
        target_container_id: ItemId(1),
        target_position_index: 0,
    });
    let (instructions, _) = tree.generate_instructions();
    assert_eq!(instructions.len(), 0);
}

#[test]
fn extra_item_wraps_the_tape() {
    let mut tree = SdfBuilderTree::new();
    add(&mut tree, 10, 1, leaf(6554));
    tree.process_commands();
    tree.set_extra_item(Some((Shape::Disk(Disk::new(1000)), Transform::default())));
    assert!(tree.grid_needs_updating);
    let (instructions, for_id) = tree.generate_instructions();
    assert_eq!(for_id.len(), 1);
    assert_eq!(instructions.len(), 3);
    assert!(matches!(instructions[0], Instruction::Sdf(_, _)));
    assert!(matches!(
        instructions[2],
        Instruction::Operator(Operator::Union)
    ));
    tree.set_extra_item(None);
    let (instructions, _) = tree.generate_instructions();
    assert_eq!(instructions.len(), 1);
}

#[test]
fn extra_item_alone_is_the_whole_tape() {
    let mut tree = SdfBuilderTree::new();
    tree.set_extra_item(Some((Shape::Disk(Disk::new(1000)), Transform::default())));
    let (instructions, for_id) = tree.generate_instructions();
    assert_eq!(for_id.len(), 0);
    assert_eq!(instructions.len(), 1);
    assert!(matches!(instructions[0], Instruction::Sdf(_, _)));
}

#[test]
fn place_in_union_mode_adds_to_root() {
    let mut tree = SdfBuilderTree::new();
    let item_id = tree.allocate_id();
    let op_id = tree.allocate_id();
    let union_id = tree.allocate_id();
    tree.place_extra_item(
        Shape::Disk(Disk::new(6554)),
        Transform::default(),
        item_id,
        op_id,
        union_id,
    );
    let (instructions, _) = tree.generate_instructions();
    let sdf = SdfInstructions::new(&instructions);
    assert_eq!(sdf.signed_distance(Point::new(0, 0)), -6554);
}

#[test]
fn place_in_subtract_mode_regroups_the_scene() {
    let mut tree = SdfBuilderTree::new();
    add(&mut tree, 10, 1, leaf(13107));
    tree.process_commands();
    tree.set_operator_mode(Operator::Subtract);
    let item_id = tree.allocate_id();
    let op_id = tree.allocate_id();
    let union_id = tree.allocate_id();
    tree.place_extra_item(
        Shape::Disk(Disk::new(6554)),
        Transform::default(),
        item_id,
        op_id,
        union_id,
    );
    let (instructions, for_id) = tree.generate_instructions();
    // old scene, dropped shape, then the subtract fold
    assert_eq!(instructions.len(), 3);
    assert!(matches!(
        instructions[2],
        Instruction::Operator(Operator::Subtract)
    ));
    let sdf = SdfInstructions::new(&instructions);
    // subtract keeps the larger of the carved small disk's flipped distance
    // and the big disk's distance
    assert_eq!(sdf.signed_distance(Point::new(0, 0)), 6554);
    let owner = id_of_signed_distance(&for_id, Point::new(0, 0));
    assert_eq!(owner, Some(item_id));
}

#[test]
fn queue_drains_in_order() {
    let mut tree = SdfBuilderTree::new();
    add(&mut tree, 10, 1, leaf(1000));
    tree.send_command(Command::EditItem {
        item: leaf(2000),
        item_id: ItemId(10),
    });
    tree.process_commands();
    let (instructions, _) = tree.generate_instructions();
    let sdf = SdfInstructions::new(&instructions);
    assert_eq!(sdf.signed_distance(Point::new(0, 0)), -2000);
}
