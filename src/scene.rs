use vstd::prelude::*;
use crate::pose::Pose;
use crate::space::{NodeId, Parent, World, parent_before};

verus! {

/// A node of a scene description: a name, a pose relative to the parent,
/// and the nodes below it.
#[derive(Debug)]
pub struct SceneNode<T> {
    pub name: String,
    pub space: T,
    pub children: Vec<SceneNode<T>>,
}

/// What one world node is created from: name, parent and local pose.
pub type Placement<T> = (Seq<char>, Parent, T);

/// The nodes that a forest of scene nodes adds to a world, in creation
/// order, when its roots hang from `parent` and the first new node gets
/// index `base`: each node comes right before the nodes below it.
pub open spec fn flat_forest<T>(nodes: Seq<SceneNode<T>>, parent: Parent, base: int) -> Seq<Placement<T>>
    decreases nodes,
{
    if nodes.len() == 0 {
        Seq::empty()
    } else {
        let pre = flat_forest(nodes.drop_last(), parent, base);
        pre + flat_tree(nodes.last(), parent, base + pre.len())
    }
}

/// The nodes that one scene node and those below it add to a world.
pub open spec fn flat_tree<T>(node: SceneNode<T>, parent: Parent, base: int) -> Seq<Placement<T>>
    decreases node,
{
    seq![(node.name@, parent, node.space)] + flat_forest(
        node.children@,
        Parent::Domestic(NodeId(base as usize)),
        base + 1,
    )
}

/// `after` is `before` with nodes appended as `entries` describe, each
/// with its absolute pose at the identity until the next update.
pub open spec fn placed<T: Pose>(before: World<T>, after: World<T>, entries: Seq<Placement<T>>) -> bool {
    let base = before.nodes().len() as int;
    &&& after.skeletons() == before.skeletons()
    &&& after.nodes().len() == base + entries.len()
    &&& after.parents().len() == base + entries.len()
    &&& forall|k: int|
        #![trigger after.nodes()[k]]
        0 <= k < base ==> after.nodes()[k] == before.nodes()[k] && after.parents()[k]
            == before.parents()[k]
    &&& forall|k: int|
        #![trigger entries[k]]
        0 <= k < entries.len() ==> {
            &&& after.nodes()[base + k].name@ == entries[k].0
            &&& after.parents()[base + k] == entries[k].1
            &&& after.nodes()[base + k].local == entries[k].2
            &&& after.nodes()[base + k].world == T::neutral()
        }
}

proof fn lemma_placed_chain<T: Pose>(
    w0: World<T>,
    w1: World<T>,
    w2: World<T>,
    e1: Seq<Placement<T>>,
    e2: Seq<Placement<T>>,
)
    requires
        placed(w0, w1, e1),
        placed(w1, w2, e2),
    ensures
        placed(w0, w2, e1 + e2),
{
    let b0 = w0.nodes().len() as int;
    let b1 = w1.nodes().len() as int;
    let e = e1 + e2;
    assert forall|k: int| #![trigger e[k]] 0 <= k < e.len() implies {
        &&& w2.nodes()[b0 + k].name@ == e[k].0
        &&& w2.parents()[b0 + k] == e[k].1
        &&& w2.nodes()[b0 + k].local == e[k].2
        &&& w2.nodes()[b0 + k].world == T::neutral()
    } by {
        if k < e1.len() {
            assert(e[k] == e1[k]);
            assert(w2.nodes()[b0 + k] == w1.nodes()[b0 + k]);
        } else {
            assert(e[k] == e2[k - e1.len()]);
            assert(b0 + k == b1 + (k - e1.len()));
        }
    }
    assert forall|k: int| #![trigger w2.nodes()[k]] 0 <= k < b0 implies w2.nodes()[k] == w0.nodes()[k]
        && w2.parents()[k] == w0.parents()[k] by {
        assert(w1.nodes()[k] == w0.nodes()[k]);
    }
}

/// Adds the nodes of a scene description to the world: the roots hang
/// from `parent`, and every node is created right before the nodes below
/// it, which hang from it.
pub fn populate_world<T: Pose>(world: &mut World<T>, nodes: &Vec<SceneNode<T>>, parent: Parent)
    requires
        old(world).wf(),
        parent_before(parent, old(world).nodes().len() as int, old(world).skeletons()),
    ensures
        final(world).wf(),
        placed(*old(world), *final(world), flat_forest(nodes@, parent, old(world).nodes().len() as int)),
    decreases nodes,
{
    let ghost base = world.nodes().len() as int;
    let mut i: usize = 0;
    assert(nodes@.take(0) =~= Seq::<SceneNode<T>>::empty());
    assert(placed(*old(world), *world, Seq::empty()));
    while i < nodes.len()
        invariant
            world.wf(),
            base == old(world).nodes().len(),
            i <= nodes@.len(),
            world.skeletons() == old(world).skeletons(),
            world.nodes().len() >= base,
            parent_before(parent, world.nodes().len() as int, world.skeletons()),
            placed(*old(world), *world, flat_forest(nodes@.take(i as int), parent, base)),
        decreases nodes@.len() - i,
    {
        let ghost w0 = *world;
        let ghost pre = flat_forest(nodes@.take(i as int), parent, base);
        let node = &nodes[i];
        let nid = world.add_node(node.name.clone(), parent, node.space);
        let ghost w1 = *world;
        assert(placed(w0, w1, seq![(node.name@, parent, node.space)])) by {
            let e: Seq<Placement<T>> = seq![(node.name@, parent, node.space)];
            assert(e[0] == (node.name@, parent, node.space));
        }
        proof {
            assert(decreases_to!(nodes => nodes@[i as int]));
        }
        populate_world(world, &node.children, Parent::Domestic(nid));
        proof {
            let b = w0.nodes().len() as int;
            let rest = flat_forest(node.children@, Parent::Domestic(NodeId(b as usize)), b + 1);
            lemma_placed_chain(w0, w1, *world, seq![(node.name@, parent, node.space)], rest);
            assert(flat_tree(*node, parent, b) == seq![(node.name@, parent, node.space)] + rest);
            lemma_placed_chain(*old(world), w0, *world, pre, flat_tree(*node, parent, b));
            assert(nodes@.take(i + 1).drop_last() =~= nodes@.take(i as int));
            assert(nodes@.take(i + 1).last() == *node);
            assert(b == base + pre.len());
        }
        i = i + 1;
    }
    assert(nodes@.take(nodes@.len() as int) =~= nodes@);
}

/// `id` is the first node of the world with this name.
pub open spec fn first_named<T: Pose>(world: World<T>, name: Seq<char>, id: NodeId) -> bool {
    &&& id.0 < world.nodes().len()
    &&& world.nodes()[id.0 as int].name@ == name
    &&& forall|j: int| 0 <= j < id.0 ==> world.nodes()[j].name@ != name
}

/// No node of the world has this name.
pub open spec fn absent<T: Pose>(world: World<T>, name: Seq<char>) -> bool {
    forall|j: int| 0 <= j < world.nodes().len() ==> world.nodes()[j].name@ != name
}

/// Why a scene could not be placed in a world.
#[derive(Debug)]
pub enum LoadError {
    /// The scene has no camera.
    NoCamera,
    /// A camera or an entity refers to a node that the world lacks.
    MissingNode(String),
}

/// The nodes that a placed scene's camera and entities hang from.
#[derive(Debug)]
pub struct Anchors {
    pub camera: NodeId,
    pub entities: Vec<NodeId>,
}

/// Looks up each name, in order, stopping at the first that no node has.
fn find_all<T: Pose>(world: &World<T>, names: &Vec<String>) -> (r: Result<Vec<NodeId>, usize>)
    ensures
        match r {
            Ok(ids) => ids@.len() == names@.len() && forall|k: int|
                0 <= k < names@.len() ==> first_named(*world, names@[k]@, #[trigger] ids@[k]),
            Err(k) => k < names@.len() && absent(*world, names@[k as int]@) && forall|j: int|
                0 <= j < k ==> !absent(*world, #[trigger] names@[j]@),
        },
{
    let mut ids: Vec<NodeId> = Vec::new();
    let mut k: usize = 0;
    while k < names.len()
        invariant
            k <= names@.len(),
            ids@.len() == k,
            forall|j: int| 0 <= j < k ==> first_named(*world, names@[j]@, #[trigger] ids@[j]),
        decreases names@.len() - k,
    {
        match world.find_node(names[k].as_str()) {
            Some(id) => ids.push(id),
            None => {
                assert forall|j: int| 0 <= j < k implies !absent(*world, #[trigger] names@[j]@) by {
                    assert(first_named(*world, names@[j]@, ids@[j]));
                }
                return Err(k);
            },
        }
        k = k + 1;
    }
    Ok(ids)
}

/// Places a scene in the world: its nodes under `global_parent`, then the
/// node of its first camera and of each entity looked up by name.
pub fn load_into<T: Pose>(
    world: &mut World<T>,
    global_parent: Parent,
    nodes: &Vec<SceneNode<T>>,
    cameras: &Vec<String>,
    entities: &Vec<String>,
) -> (r: Result<Anchors, LoadError>)
    requires
        old(world).wf(),
        parent_before(global_parent, old(world).nodes().len() as int, old(world).skeletons()),
    ensures
        final(world).wf(),
        placed(*old(world), *final(world), flat_forest(nodes@, global_parent, old(world).nodes().len() as int)),
        (r matches Err(LoadError::NoCamera)) <==> cameras@.len() == 0,
        (r matches Err(LoadError::MissingNode(_))) <==> cameras@.len() > 0 && (absent(*final(world), cameras@[0]@)
            || exists|k: int| 0 <= k < entities@.len() && absent(*final(world), #[trigger] entities@[k]@)),
        r matches Err(LoadError::MissingNode(n)) ==> absent(*final(world), n@),
        r matches Ok(p) ==> {
            &&& first_named(*final(world), cameras@[0]@, p.camera)
            &&& p.entities@.len() == entities@.len()
            &&& forall|k: int|
                0 <= k < entities@.len() ==> first_named(*final(world), entities@[k]@, #[trigger] p.entities@[k])
        },
{
    populate_world(world, nodes, global_parent);
    if cameras.len() == 0 {
        return Err(LoadError::NoCamera);
    }
    let camera = match world.find_node(cameras[0].as_str()) {
        Some(id) => id,
        None => return Err(LoadError::MissingNode(cameras[0].clone())),
    };
    match find_all(world, entities) {
        Ok(ids) => {
            assert(!absent(*world, cameras@[0]@));
            assert forall|k: int| 0 <= k < entities@.len() implies !absent(*world, #[trigger] entities@[k]@) by {
                assert(first_named(*world, entities@[k]@, ids@[k]));
            }
            Ok(Anchors { camera, entities: ids })
        },
        Err(k) => Err(LoadError::MissingNode(entities[k].clone())),
    }
}

/// Places a scene under a new root node named `name`, with the identity as
/// its local pose; hands out that node with what `load_into` found.
pub fn extend_scene<T: Pose>(
    world: &mut World<T>,
    name: String,
    nodes: &Vec<SceneNode<T>>,
    cameras: &Vec<String>,
    entities: &Vec<String>,
) -> (r: Result<(NodeId, Anchors), LoadError>)
    requires
        old(world).wf(),
    ensures
        final(world).wf(),
        placed(
            *old(world),
            *final(world),
            seq![(name@, Parent::Root, T::neutral())] + flat_forest(
                nodes@,
                Parent::Domestic(NodeId(old(world).nodes().len() as usize)),
                old(world).nodes().len() + 1 as int,
            ),
        ),
        (r matches Err(LoadError::NoCamera)) <==> cameras@.len() == 0,
        (r matches Err(LoadError::MissingNode(_))) <==> cameras@.len() > 0 && (absent(*final(world), cameras@[0]@)
            || exists|k: int| 0 <= k < entities@.len() && absent(*final(world), #[trigger] entities@[k]@)),
        r matches Err(LoadError::MissingNode(n)) ==> absent(*final(world), n@),
        r matches Ok((root, p)) ==> {
            &&& root.0 == old(world).nodes().len()
            &&& first_named(*final(world), cameras@[0]@, p.camera)
            &&& p.entities@.len() == entities@.len()
            &&& forall|k: int|
                0 <= k < entities@.len() ==> first_named(*final(world), entities@[k]@, #[trigger] p.entities@[k])
        },
{
    let ghost w0 = *world;
    let ghost label = name@;
    let root = world.add_node(name, Parent::Root, T::identity());
    let ghost w1 = *world;
    assert(placed(w0, w1, seq![(label, Parent::Root, T::neutral())])) by {
        let e: Seq<Placement<T>> = seq![(label, Parent::Root, T::neutral())];
        assert(e[0] == (label, Parent::Root, T::neutral()));
    }
    let r = load_into(world, Parent::Domestic(root), nodes, cameras, entities);
    proof {
        lemma_placed_chain(
            w0,
            w1,
            *world,
            seq![(label, Parent::Root, T::neutral())],
            flat_forest(nodes@, Parent::Domestic(root), w1.nodes().len() as int),
        );
    }
    match r {
        Ok(p) => Ok((root, p)),
        Err(e) => Err(e),
    }
}

} // verus!
