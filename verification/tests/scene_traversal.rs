//! The scene graph: leaf termination, drawable filtering, and the pre-order,
//! insertion-ordered draw traversal.

use gloom::scene::DrawCmd;
use gloom::scene::SceneGraph;

#[test]
fn bare_root_draws_nothing() {
    let g = SceneGraph::new();
    assert_eq!(g.node_count(), 1);
    let cmds = g.render_list();
    assert!(cmds.is_empty());
}

#[test]
fn single_drawable_leaf() {
    let mut g = SceneGraph::new();
    let child = g.add_drawable(7, 2);
    g.add_child(0, child);
    let cmds = g.render_list();
    assert_eq!(cmds, vec![DrawCmd { vao: 7, elements: 6 }]);
}

#[test]
fn grouping_nodes_are_not_drawn() {
    let mut g = SceneGraph::new();
    let group = g.add_group();
    g.add_child(0, group);
    let leaf = g.add_drawable(3, 1);
    g.add_child(group, leaf);
    let cmds = g.render_list();
    assert_eq!(cmds, vec![DrawCmd { vao: 3, elements: 3 }]);
}

#[test]
fn drawable_child_and_two_leaves_under_group_draw_in_order() {
    // A root with one drawable child; under that child a non-drawable
    // grouping node holding two drawable leaves. Exactly three draw calls
    // come out, the root excluded, in the order: child, first leaf, second
    // leaf.
    let mut g = SceneGraph::new();
    let child = g.add_drawable(10, 1);
    g.add_child(0, child);
    let group = g.add_group();
    g.add_child(child, group);
    let leaf_a = g.add_drawable(11, 2);
    g.add_child(group, leaf_a);
    let leaf_b = g.add_drawable(12, 3);
    g.add_child(group, leaf_b);
    let cmds = g.render_list();
    assert_eq!(
        cmds,
        vec![
            DrawCmd { vao: 10, elements: 3 },
            DrawCmd { vao: 11, elements: 6 },
            DrawCmd { vao: 12, elements: 9 },
        ]
    );
}

#[test]
fn siblings_draw_in_insertion_order() {
    let mut g = SceneGraph::new();
    let a = g.add_drawable(1, 1);
    let b = g.add_drawable(2, 1);
    let c = g.add_drawable(3, 1);
    g.add_child(0, a);
    g.add_child(0, b);
    g.add_child(0, c);
    let cmds = g.render_list();
    let vaos: Vec<u32> = cmds.iter().map(|cmd| cmd.vao).collect();
    assert_eq!(vaos, vec![1, 2, 3]);
}

#[test]
fn depth_first_before_later_siblings() {
    let mut g = SceneGraph::new();
    let first = g.add_drawable(1, 1);
    g.add_child(0, first);
    let second = g.add_drawable(2, 1);
    g.add_child(0, second);
    let under_first = g.add_drawable(9, 1);
    g.add_child(first, under_first);
    let vaos: Vec<u32> = g.render_list().iter().map(|cmd| cmd.vao).collect();
    assert_eq!(vaos, vec![1, 9, 2]);
}
