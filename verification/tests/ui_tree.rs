use rust_kernel_game_engine_kit::subsystems::ui::budget::UiError;
use rust_kernel_game_engine_kit::subsystems::ui::id::UiNodeId;
use rust_kernel_game_engine_kit::subsystems::ui::tree::UiTree;

fn tree(max_nodes: usize, max_depth: usize) -> UiTree<&'static str> {
    UiTree::try_new(max_nodes, max_depth, "root").unwrap()
}

fn order(tree: &UiTree<&'static str>) -> Vec<UiNodeId> {
    let mut out = Vec::new();
    tree.preorder(&mut out).unwrap();
    out
}

#[test]
fn bounded_tree_rejects_cycles_and_stale_handles() {
    let mut tree = tree(4, 128);
    let child = tree.create(tree.root(), "panel").unwrap();
    assert_eq!(tree.reparent(tree.root(), child), Err(UiError::InvalidParent));
    tree.destroy(child).unwrap();
    assert!(!tree.contains(child));
    assert_eq!(tree.destroy(child), Err(UiError::InvalidNode));
}

#[test]
fn zero_limits_are_invalid() {
    assert!(matches!(
        UiTree::try_new(0, 4, "root"),
        Err(UiError::InvalidValue)
    ));
    assert!(matches!(
        UiTree::try_new(4, 0, "root"),
        Err(UiError::InvalidValue)
    ));
}

#[test]
fn children_keep_creation_order_in_preorder() {
    let mut tree = tree(8, 8);
    let root = tree.root();
    let a = tree.create(root, "a").unwrap();
    let b = tree.create(root, "b").unwrap();
    let a1 = tree.create(a, "a1").unwrap();
    assert_eq!(tree.children(root).unwrap(), &[a, b]);
    assert_eq!(tree.parent(a1), Ok(Some(a)));
    assert_eq!(order(&tree), vec![root, a, a1, b]);
    assert_eq!(tree.len(), 4);
    assert_eq!(*tree.content(a1).unwrap(), "a1");
}

#[test]
fn reparent_refuses_moving_a_node_under_its_own_subtree() {
    let mut tree = tree(8, 8);
    let a = tree.create(tree.root(), "a").unwrap();
    let b = tree.create(a, "b").unwrap();
    assert_eq!(tree.reparent(a, b), Err(UiError::Cycle));
    assert_eq!(tree.reparent(a, a), Err(UiError::Cycle));
    assert_eq!(tree.parent(a), Ok(Some(tree.root())));
}

#[test]
fn reparent_moves_the_subtree_to_the_end_of_the_new_parent() {
    let mut tree = tree(8, 8);
    let root = tree.root();
    let a = tree.create(root, "a").unwrap();
    let b = tree.create(root, "b").unwrap();
    let a1 = tree.create(a, "a1").unwrap();
    let b1 = tree.create(b, "b1").unwrap();
    tree.reparent(a, b).unwrap();
    assert_eq!(tree.children(root).unwrap(), &[b]);
    assert_eq!(tree.children(b).unwrap(), &[b1, a]);
    assert_eq!(order(&tree), vec![root, b, b1, a, a1]);
    assert_eq!(tree.is_dirty(a), Ok(true));
}

#[test]
fn depth_limit_applies_to_create_and_reparent() {
    let mut tree = tree(8, 3);
    let a = tree.create(tree.root(), "a").unwrap();
    let b = tree.create(a, "b").unwrap();
    assert_eq!(tree.create(b, "c"), Err(UiError::DepthExceeded));
    let c = tree.create(a, "c").unwrap();
    assert_eq!(tree.reparent(c, b), Err(UiError::DepthExceeded));
}

#[test]
fn node_limit_is_enforced() {
    let mut tree = tree(2, 8);
    tree.create(tree.root(), "a").unwrap();
    assert_eq!(tree.create(tree.root(), "b"), Err(UiError::CapacityExceeded));
}

#[test]
fn destroy_removes_the_subtree_and_reuses_slots_with_new_generations() {
    let mut tree = tree(8, 8);
    let root = tree.root();
    let a = tree.create(root, "a").unwrap();
    let a1 = tree.create(a, "a1").unwrap();
    let b = tree.create(root, "b").unwrap();
    tree.destroy(a).unwrap();
    assert!(!tree.contains(a));
    assert!(!tree.contains(a1));
    assert!(tree.contains(b));
    assert_eq!(tree.children(root).unwrap(), &[b]);
    assert_eq!(tree.len(), 2);
    // The slot of `a` is reused first, at a later generation.
    let c = tree.create(root, "c").unwrap();
    assert_eq!(c.index(), a.index());
    assert_eq!(c.generation(), a.generation() + 1);
    assert!(!tree.contains(a));
    assert_eq!(tree.content(a), Err(UiError::InvalidNode));
    assert_eq!(order(&tree), vec![root, b, c]);
}

#[test]
fn the_root_cannot_be_destroyed() {
    let mut tree = tree(4, 4);
    assert_eq!(tree.destroy(tree.root()), Err(UiError::InvalidNode));
    assert!(tree.contains(tree.root()));
}

#[test]
fn layout_clears_and_content_changes_mark_ancestors_dirty() {
    let mut tree = tree(8, 8);
    let root = tree.root();
    let a = tree.create(root, "a").unwrap();
    let b = tree.create(a, "b").unwrap();
    assert_eq!(tree.dirty_count(), 3);
    let rect = [0_u32, 0, 10.0_f32.to_bits(), 5.0_f32.to_bits()];
    for id in [root, a, b] {
        tree.set_rect(id, rect).unwrap();
    }
    assert_eq!(tree.dirty_count(), 0);
    assert_eq!(tree.rect(b), Ok(rect));
    tree.set_content(b, "b2").unwrap();
    assert_eq!(tree.is_dirty(b), Ok(true));
    assert_eq!(tree.is_dirty(a), Ok(true));
    assert_eq!(tree.is_dirty(root), Ok(true));
    assert_eq!(tree.dirty_count(), 3);
    assert_eq!(*tree.content(b).unwrap(), "b2");
}

#[test]
fn content_edits_in_place_leave_dirty_flags_alone() {
    let mut tree = tree(4, 4);
    let root = tree.root();
    let child = tree.create(root, "label").unwrap();
    tree.set_rect(root, [0, 0, 0, 0]).unwrap();
    tree.set_rect(child, [0, 0, 0, 0]).unwrap();
    assert_eq!(tree.dirty_count(), 0);
    *tree.content_mut(child).unwrap() = "button";
    assert_eq!(tree.content(child), Ok(&"button"));
    assert_eq!(tree.content(root), Ok(&"root"));
    assert_eq!(tree.dirty_count(), 0);
    tree.destroy(child).unwrap();
    assert!(matches!(tree.content_mut(child), Err(UiError::InvalidNode)));
}
