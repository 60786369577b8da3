use claymore::pose::{Affine, Pose};
use claymore::scene::{extend_scene, load_into, populate_world, LoadError, SceneNode};
use claymore::space::{NodeId, Parent, World};

fn leaf(name: &str, x: i64) -> SceneNode<Affine> {
    SceneNode { name: name.to_string(), space: Affine::translation(x, 0, 0), children: Vec::new() }
}

fn tree() -> Vec<SceneNode<Affine>> {
    let mut body = leaf("body", 1);
    let mut arm = leaf("arm", 2);
    arm.children.push(leaf("hand", 3));
    body.children.push(arm);
    body.children.push(leaf("leg", 4));
    vec![body, leaf("lamp", 10)]
}

fn names(w: &World<Affine>) -> Vec<String> {
    w.iter_nodes().iter().map(|n| n.name.clone()).collect()
}

#[test]
fn nodes_come_before_their_children() {
    let mut world: World<Affine> = World::new();
    populate_world(&mut world, &tree(), Parent::Root);
    assert_eq!(names(&world), vec!["body", "arm", "hand", "leg", "lamp"]);
    assert_eq!(world.get_parent(NodeId(0)), Parent::Root);
    assert_eq!(world.get_parent(NodeId(1)), Parent::Domestic(NodeId(0)));
    assert_eq!(world.get_parent(NodeId(2)), Parent::Domestic(NodeId(1)));
    assert_eq!(world.get_parent(NodeId(3)), Parent::Domestic(NodeId(0)));
    assert_eq!(world.get_parent(NodeId(4)), Parent::Root);
    world.update();
    assert_eq!(world.get_node(NodeId(2)).world.disp.x, 6);
    assert_eq!(world.get_node(NodeId(3)).world.disp.x, 5);
}

#[test]
fn load_into_finds_camera_and_entities() {
    let mut world: World<Affine> = World::new();
    let top = world.add_node("top".to_string(), Parent::Root, Affine::identity());
    let cams = vec!["lamp".to_string(), "body".to_string()];
    let ents = vec!["hand".to_string(), "leg".to_string()];
    let placed = load_into(&mut world, Parent::Domestic(top), &tree(), &cams, &ents).unwrap();
    assert_eq!(placed.camera, NodeId(5));
    assert_eq!(placed.entities, vec![NodeId(3), NodeId(4)]);
    assert_eq!(world.get_parent(NodeId(1)), Parent::Domestic(top));
}

#[test]
fn load_into_reports_missing_nodes() {
    let mut world: World<Affine> = World::new();
    let none: Vec<String> = Vec::new();
    let r = load_into(&mut world, Parent::Root, &tree(), &none, &none);
    assert!(matches!(r, Err(LoadError::NoCamera)));
    assert_eq!(world.iter_nodes().len(), 5);

    let mut world: World<Affine> = World::new();
    let r = load_into(&mut world, Parent::Root, &tree(), &vec!["eye".to_string()], &none);
    assert!(matches!(r, Err(LoadError::MissingNode(n)) if n == "eye"));

    let mut world: World<Affine> = World::new();
    let ents = vec!["arm".to_string(), "tail".to_string(), "wing".to_string()];
    let r = load_into(&mut world, Parent::Root, &tree(), &vec!["lamp".to_string()], &ents);
    assert!(matches!(r, Err(LoadError::MissingNode(n)) if n == "tail"));
}

#[test]
fn extend_scene_adds_a_root_first() {
    let mut world: World<Affine> = World::new();
    world.add_node("existing".to_string(), Parent::Root, Affine::identity());
    let (root, placed) =
        extend_scene(&mut world, "level".to_string(), &tree(), &vec!["arm".to_string()], &Vec::new()).unwrap();
    assert_eq!(root, NodeId(1));
    assert_eq!(world.get_node(root).name, "level");
    assert_eq!(world.get_parent(NodeId(2)), Parent::Domestic(root));
    assert_eq!(placed.camera, NodeId(3));
    assert!(placed.entities.is_empty());
}
