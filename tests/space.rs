use claymore::pose::{Affine, Pose, Vector3};
use claymore::space::{BoneId, NodeId, Parent, SkeletonId, World};

fn disp(a: &Affine) -> (i64, i64, i64) {
    (a.disp.x, a.disp.y, a.disp.z)
}

#[test]
fn root_and_translated_child() {
    let mut world: World<Affine> = World::new();
    let a = world.add_node("A".to_string(), Parent::Root, Affine::identity());
    let b = world.add_node("B".to_string(), Parent::Domestic(a), Affine::translation(1, 0, 0));
    world.update();
    assert_eq!(disp(&world.get_node(a).world), (0, 0, 0));
    assert_eq!(disp(&world.get_node(b).world), (1, 0, 0));
}

#[test]
fn rotated_parent_carries_child_offset() {
    let mut world: World<Affine> = World::new();
    let a = world.add_node("A".to_string(), Parent::Root, Affine::rotation_z(1));
    let b = world.add_node("B".to_string(), Parent::Domestic(a), Affine::translation(1, 0, 0));
    world.update();
    assert_eq!(disp(&world.get_node(b).world), (0, 1, 0));
}

#[test]
fn child_world_is_parent_world_then_local() {
    let mut world: World<Affine> = World::new();
    let la = Affine::rotation_z(1).concat(&Affine::translation(3, -2, 5)).concat(&Affine::scale(2));
    let lb = Affine::translation(1, 2, 3).concat(&Affine::rotation_z(3));
    let a = world.add_node("A".to_string(), Parent::Root, la);
    let b = world.add_node("B".to_string(), Parent::Domestic(a), lb);
    world.update();
    assert_eq!(world.get_node(a).world, la);
    assert_eq!(world.get_node(b).world, la.concat(&lb));
    assert_eq!(world.get_transform(b), la.concat(&lb));
}

#[test]
fn chain_of_three_accumulates() {
    let mut world: World<Affine> = World::new();
    let a = world.add_node("a".to_string(), Parent::Root, Affine::translation(1, 0, 0));
    let b = world.add_node("b".to_string(), Parent::Domestic(a), Affine::translation(0, 2, 0));
    let c = world.add_node("c".to_string(), Parent::Domestic(b), Affine::translation(0, 0, 3));
    world.update();
    assert_eq!(disp(&world.get_node(c).world), (1, 2, 3));
}

#[test]
fn local_change_shows_after_next_update() {
    let mut world: World<Affine> = World::new();
    let a = world.add_node("a".to_string(), Parent::Root, Affine::identity());
    let b = world.add_node("b".to_string(), Parent::Domestic(a), Affine::translation(1, 1, 1));
    world.update();
    world.mut_node(a).local = Affine::translation(10, 0, 0);
    assert_eq!(disp(&world.get_node(b).world), (1, 1, 1));
    world.update();
    assert_eq!(disp(&world.get_node(b).world), (11, 1, 1));
}

#[test]
fn new_node_starts_at_identity() {
    let mut world: World<Affine> = World::new();
    let a = world.add_node("a".to_string(), Parent::Root, Affine::translation(4, 4, 4));
    assert_eq!(world.get_node(a).world, Affine::identity());
    assert_eq!(world.get_parent(a), Parent::Root);
}

#[test]
fn find_node_returns_first_match() {
    let mut world: World<Affine> = World::new();
    let a = world.add_node("x".to_string(), Parent::Root, Affine::identity());
    let b = world.add_node("y".to_string(), Parent::Domestic(a), Affine::identity());
    let _c = world.add_node("y".to_string(), Parent::Root, Affine::identity());
    assert_eq!(world.find_node("x"), Some(a));
    assert_eq!(world.find_node("y"), Some(b));
    assert_eq!(world.find_node("z"), None);
    assert_eq!(world.iter_nodes().len(), 3);
}

#[test]
fn ids_follow_creation_order() {
    let mut world: World<Affine> = World::new();
    let a = world.add_node("a".to_string(), Parent::Root, Affine::identity());
    let b = world.add_node("b".to_string(), Parent::Domestic(a), Affine::identity());
    assert_eq!(a, NodeId(0));
    assert_eq!(b, NodeId(1));
    assert_eq!(world.get_parent(b), Parent::Domestic(NodeId(0)));
}

#[test]
fn bones_follow_anchor_node() {
    let mut world: World<Affine> = World::new();
    let root = world.add_node("root".to_string(), Parent::Root, Affine::translation(0, 0, 10));
    let sk = world.add_skeleton("rig".to_string(), root);
    assert_eq!(sk, SkeletonId(0));
    let hip = world.add_bone(sk, "hip".to_string(), None, Affine::translation(1, 0, 0), Affine::identity(), Affine::identity());
    let knee = world.add_bone(sk, "knee".to_string(), Some(hip), Affine::translation(0, 1, 0), Affine::identity(), Affine::identity());
    assert_eq!(knee, BoneId(1));
    world.update();
    assert_eq!(disp(&world.get_bone(sk, hip).world), (1, 0, 10));
    assert_eq!(disp(&world.get_bone(sk, knee).world), (1, 1, 10));
}

#[test]
fn node_on_bone_trails_by_one_update() {
    let mut world: World<Affine> = World::new();
    let root = world.add_node("root".to_string(), Parent::Root, Affine::translation(5, 0, 0));
    let sk = world.add_skeleton("rig".to_string(), root);
    let hand = world.add_bone(sk, "hand".to_string(), None, Affine::translation(0, 2, 0), Affine::identity(), Affine::identity());
    let sword = world.add_node("sword".to_string(), Parent::Foreign(sk, hand), Affine::translation(0, 0, 1));
    world.update();
    // The bone was still at the identity when the node read it.
    assert_eq!(disp(&world.get_node(sword).world), (0, 0, 1));
    world.update();
    assert_eq!(disp(&world.get_node(sword).world), (5, 2, 1));
}

#[test]
fn composition_is_not_commutative() {
    let r = Affine::rotation_z(1);
    let t = Affine::translation(1, 0, 0);
    assert_eq!(disp(&r.concat(&t)), (0, 1, 0));
    assert_eq!(disp(&t.concat(&r)), (1, 0, 0));
}

#[test]
fn affine_view_depth_is_z_offset() {
    let a = Affine::translation(7, 8, -9);
    assert_eq!(a.view_depth(), -9);
    let s = Affine::scale(3).concat(&Affine::translation(1, 1, 1));
    assert_eq!(s.disp, Vector3::new(3, 3, 3));
}
