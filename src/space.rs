use vstd::prelude::*;
use crate::pose::Pose;

verus! {

/// Handle of a node: its position in the world's node store.
#[derive(Clone, Copy, Debug, PartialEq, Eq, Structural)]
pub struct NodeId(pub usize);

/// Handle of a skeleton: its position in the world's skeleton store.
#[derive(Clone, Copy, Debug, PartialEq, Eq, Structural)]
pub struct SkeletonId(pub usize);

/// Handle of a bone: its position in its skeleton's bone array.
#[derive(Clone, Copy, Debug, PartialEq, Eq, Structural)]
pub struct BoneId(pub usize);

/// What a node's local transform is relative to.
#[derive(Clone, Copy, Debug, PartialEq, Eq, Structural)]
pub enum Parent {
    /// The node is a root: its local transform is absolute.
    Root,
    /// Another node of the same world.
    Domestic(NodeId),
    /// A bone of one of the world's skeletons.
    Foreign(SkeletonId, BoneId),
}

/// A named point of the spatial hierarchy.
#[derive(Debug)]
pub struct Node<T> {
    pub name: String,
    /// Pose relative to the parent.
    pub local: T,
    /// Absolute pose, written by `World::update`.
    pub world: T,
}

/// A joint of a skeleton.
#[derive(Debug)]
pub struct Bone<T> {
    pub name: String,
    /// Pose relative to the parent bone, or to the skeleton's node.
    pub local: T,
    /// Absolute pose, written by `World::update`.
    pub world: T,
    pub bind_pose: T,
    pub bind_pose_root_inverse: T,
}

/// A bone hierarchy anchored to one node.
///
/// A bone's parent always comes earlier in the bone array.
#[derive(Debug)]
pub struct Skeleton<T> {
    pub name: String,
    /// The node that the skeleton hangs from.
    pub node: NodeId,
    pub bones: Vec<Bone<T>>,
    /// Parent of each bone, position by position.
    pub bone_parents: Vec<Option<BoneId>>,
}

impl<T> Skeleton<T> {
    /// The node that the skeleton hangs from.
    pub open spec fn anchor(&self) -> NodeId {
        self.node
    }

    pub open spec fn bones(&self) -> Seq<Bone<T>> {
        self.bones@
    }

    /// Parent of each bone, position by position.
    pub open spec fn bone_parents(&self) -> Seq<Option<BoneId>> {
        self.bone_parents@
    }

    /// Bone parents point backwards, and there is one per bone.
    pub open spec fn wf(&self, node_count: int) -> bool {
        &&& self.anchor().0 < node_count
        &&& self.bones().len() == self.bone_parents().len()
        &&& forall|j: int|
            0 <= j < self.bone_parents().len() ==> bone_parent_before(
                #[trigger] self.bone_parents()[j],
                j,
            )
    }

    pub fn get_node(&self) -> (r: NodeId)
        ensures
            r == self.anchor(),
    {
        self.node
    }

    pub fn bone_count(&self) -> (r: usize)
        ensures
            r == self.bones().len(),
    {
        self.bones.len()
    }
}

/// A bone parent, if any, stands before position `index`.
pub open spec fn bone_parent_before(parent: Option<BoneId>, index: int) -> bool {
    match parent {
        Option::Some(b) => b.0 < index,
        Option::None => true,
    }
}

/// A node parent refers only to what already exists when the node at
/// `index` is created: an earlier node, or an existing bone.
pub open spec fn parent_before<T>(parent: Parent, index: int, skeletons: Seq<Skeleton<T>>) -> bool {
    match parent {
        Parent::Root => true,
        Parent::Domestic(p) => p.0 < index,
        Parent::Foreign(s, b) => s.0 < skeletons.len() && b.0 < skeletons[s.0 as int].bones().len(),
    }
}

/// The absolute pose that a node with these parent and local transform
/// takes, given the absolute poses of the nodes and the bones.
pub open spec fn node_world<T: Pose>(
    parent: Parent,
    local: T,
    nodes: Seq<Node<T>>,
    skeletons: Seq<Skeleton<T>>,
) -> T {
    match parent {
        Parent::Root => local,
        Parent::Domestic(p) => T::compose(nodes[p.0 as int].world, local),
        Parent::Foreign(s, b) => T::compose(
            skeletons[s.0 as int].bones()[b.0 as int].world,
            local,
        ),
    }
}

/// The absolute pose of a bone, given the skeleton's anchor pose and the
/// poses of the other bones.
pub open spec fn bone_world<T: Pose>(parent: Option<BoneId>, local: T, anchor: T, bones: Seq<Bone<T>>) -> T {
    match parent {
        Option::Some(b) => T::compose(bones[b.0 as int].world, local),
        Option::None => T::compose(anchor, local),
    }
}

/// Node and skeleton stores, in creation order, which is also the order in
/// which absolute poses are computed.
#[derive(Debug)]
pub struct World<T> {
    nodes: Vec<Node<T>>,
    parents: Vec<Parent>,
    skeletons: Vec<Skeleton<T>>,
}

impl<T: Pose> World<T> {
    pub closed spec fn nodes(&self) -> Seq<Node<T>> {
        self.nodes@
    }

    /// Parent of each node, position by position.
    pub closed spec fn parents(&self) -> Seq<Parent> {
        self.parents@
    }

    pub closed spec fn skeletons(&self) -> Seq<Skeleton<T>> {
        self.skeletons@
    }

    /// Every reference points backwards or to something that exists: the
    /// forest is acyclic and one forward pass settles it.
    pub open spec fn wf(&self) -> bool {
        &&& self.nodes().len() == self.parents().len()
        &&& forall|i: int|
            0 <= i < self.parents().len() ==> parent_before(
                #[trigger] self.parents()[i],
                i,
                self.skeletons(),
            )
        &&& forall|s: int|
            0 <= s < self.skeletons().len() ==> (#[trigger] self.skeletons()[s]).wf(
                self.nodes().len() as int,
            )
    }

    pub fn new() -> (r: World<T>)
        ensures
            r.wf(),
            r.nodes().len() == 0,
            r.skeletons().len() == 0,
    {
        World { nodes: Vec::new(), parents: Vec::new(), skeletons: Vec::new() }
    }

    pub fn get_node(&self, id: NodeId) -> (r: &Node<T>)
        requires
            id.0 < self.nodes().len(),
        ensures
            *r == self.nodes()[id.0 as int],
    {
        &self.nodes[id.0]
    }

    /// Write access to a node's name and transforms; its parent stays.
    pub fn mut_node(&mut self, id: NodeId) -> (r: &mut Node<T>)
        requires
            id.0 < old(self).nodes().len(),
        ensures
            *r == old(self).nodes()[id.0 as int],
            final(self).nodes() == old(self).nodes().update(id.0 as int, *final(r)),
            final(self).parents() == old(self).parents(),
            final(self).skeletons() == old(self).skeletons(),
    {
        &mut self.nodes[id.0]
    }

    pub fn get_parent(&self, id: NodeId) -> (r: Parent)
        requires
            id.0 < self.parents().len(),
        ensures
            r == self.parents()[id.0 as int],
    {
        self.parents[id.0]
    }

    /// Absolute pose of a node, as of the last update.
    pub fn get_transform(&self, id: NodeId) -> (r: T)
        requires
            id.0 < self.nodes().len(),
        ensures
            r == self.nodes()[id.0 as int].world,
    {
        self.nodes[id.0].world
    }

    /// All nodes in creation order.
    pub fn iter_nodes(&self) -> (r: &[Node<T>])
        ensures
            r@ == self.nodes(),
    {
        self.nodes.as_slice()
    }

    /// The first node, in creation order, with this name.
    pub fn find_node(&self, name: &str) -> (r: Option<NodeId>)
        ensures
            match r {
                Option::Some(id) => {
                    &&& id.0 < self.nodes().len()
                    &&& self.nodes()[id.0 as int].name@ == name@
                    &&& forall|j: int| 0 <= j < id.0 ==> self.nodes()[j].name@ != name@
                },
                Option::None => forall|j: int|
                    0 <= j < self.nodes().len() ==> self.nodes()[j].name@ != name@,
            },
    {
        let target = name.to_owned();
        let mut i: usize = 0;
        while i < self.nodes.len()
            invariant
                target@ == name@,
                i <= self.nodes().len(),
                forall|j: int| 0 <= j < i ==> self.nodes()[j].name@ != name@,
            decreases self.nodes().len() - i,
        {
            if self.nodes[i].name == target {
                return Some(NodeId(i));
            }
            i = i + 1;
        }
        None
    }

    /// Appends a node. Its parent must already exist, which keeps every
    /// reference pointing backwards. The absolute pose starts as the
    /// identity until the next update.
    pub fn add_node(&mut self, name: String, parent: Parent, local: T) -> (r: NodeId)
        requires
            old(self).wf(),
            parent_before(parent, old(self).nodes().len() as int, old(self).skeletons()),
        ensures
            final(self).wf(),
            r.0 == old(self).nodes().len(),
            final(self).nodes() == old(self).nodes().push(
                Node { name, local, world: T::neutral() },
            ),
            final(self).parents() == old(self).parents().push(parent),
            final(self).skeletons() == old(self).skeletons(),
    {
        let id = NodeId(self.nodes.len());
        self.nodes.push(Node { name, local, world: T::identity() });
        self.parents.push(parent);
        assert forall|s: int| 0 <= s < self.skeletons().len() implies (
        #[trigger] self.skeletons()[s]).wf(self.nodes().len() as int) by {
            assert(old(self).skeletons()[s].wf(old(self).nodes().len() as int));
        }
        assert forall|i: int| 0 <= i < self.parents().len() implies parent_before(
            #[trigger] self.parents()[i],
            i,
            self.skeletons(),
        ) by {
            if i < old(self).parents().len() {
                assert(parent_before(old(self).parents()[i], i, old(self).skeletons()));
            }
        }
        id
    }

    /// Appends a skeleton, with no bones yet, hanging from an existing node.
    pub fn add_skeleton(&mut self, name: String, node: NodeId) -> (r: SkeletonId)
        requires
            old(self).wf(),
            node.0 < old(self).nodes().len(),
        ensures
            final(self).wf(),
            r.0 == old(self).skeletons().len(),
            final(self).nodes() == old(self).nodes(),
            final(self).parents() == old(self).parents(),
            final(self).skeletons().len() == old(self).skeletons().len() + 1,
            forall|s: int|
                0 <= s < old(self).skeletons().len() ==> final(self).skeletons()[s]
                    == old(self).skeletons()[s],
            final(self).skeletons()[r.0 as int].name == name,
            final(self).skeletons()[r.0 as int].anchor() == node,
            final(self).skeletons()[r.0 as int].bones().len() == 0,
    {
        let id = SkeletonId(self.skeletons.len());
        self.skeletons.push(
            Skeleton { name, node, bones: Vec::new(), bone_parents: Vec::new() },
        );
        assert forall|i: int| 0 <= i < self.parents().len() implies parent_before(
            #[trigger] self.parents()[i],
            i,
            self.skeletons(),
        ) by {
            assert(parent_before(old(self).parents()[i], i, old(self).skeletons()));
        }
        assert forall|s: int| 0 <= s < self.skeletons().len() implies (
        #[trigger] self.skeletons()[s]).wf(self.nodes().len() as int) by {
            if s < old(self).skeletons().len() {
                assert(old(self).skeletons()[s].wf(old(self).nodes().len() as int));
            }
        }
        id
    }

    /// Appends a bone to a skeleton. Its parent bone, if any, must already
    /// exist in that skeleton.
    pub fn add_bone(
        &mut self,
        skeleton: SkeletonId,
        name: String,
        parent: Option<BoneId>,
        local: T,
        bind_pose: T,
        bind_pose_root_inverse: T,
    ) -> (r: BoneId)
        requires
            old(self).wf(),
            skeleton.0 < old(self).skeletons().len(),
            bone_parent_before(parent, old(self).skeletons()[skeleton.0 as int].bones().len() as int),
        ensures
            final(self).wf(),
            r.0 == old(self).skeletons()[skeleton.0 as int].bones().len(),
            final(self).nodes() == old(self).nodes(),
            final(self).parents() == old(self).parents(),
            final(self).skeletons().len() == old(self).skeletons().len(),
            forall|s: int|
                0 <= s < old(self).skeletons().len() && s != skeleton.0 ==> final(self).skeletons()[s]
                    == old(self).skeletons()[s],
            final(self).skeletons()[skeleton.0 as int].name == old(self).skeletons()[skeleton.0 as int].name,
            final(self).skeletons()[skeleton.0 as int].anchor() == old(self).skeletons()[skeleton.0 as int].anchor(),
            final(self).skeletons()[skeleton.0 as int].bones() == old(self).skeletons()[skeleton.0 as int].bones().push(
                Bone { name, local, world: T::neutral(), bind_pose, bind_pose_root_inverse },
            ),
            final(self).skeletons()[skeleton.0 as int].bone_parents() == old(self).skeletons()[skeleton.0 as int].bone_parents().push(parent),
    {
        let ghost before = self.skeletons();
        let sk = &mut self.skeletons[skeleton.0];
        let id = BoneId(sk.bones.len());
        sk.bones.push(
            Bone { name, local, world: T::identity(), bind_pose, bind_pose_root_inverse },
        );
        sk.bone_parents.push(parent);
        assert forall|i: int| 0 <= i < self.parents().len() implies parent_before(
            #[trigger] self.parents()[i],
            i,
            self.skeletons(),
        ) by {
            assert(parent_before(old(self).parents()[i], i, before));
        }
        assert forall|s: int| 0 <= s < self.skeletons().len() implies (
        #[trigger] self.skeletons()[s]).wf(self.nodes().len() as int) by {
            assert(before[s].wf(self.nodes().len() as int));
            if s == skeleton.0 {
                let sk = self.skeletons()[s];
                assert forall|j: int| 0 <= j < sk.bone_parents().len() implies bone_parent_before(
                    #[trigger] sk.bone_parents()[j],
                    j,
                ) by {
                    if j < before[s].bone_parents().len() {
                        assert(bone_parent_before(before[s].bone_parents()[j], j));
                    }
                }
            }
        }
        id
    }

    pub fn get_bone(&self, skeleton: SkeletonId, bone: BoneId) -> (r: &Bone<T>)
        requires
            skeleton.0 < self.skeletons().len(),
            bone.0 < self.skeletons()[skeleton.0 as int].bones().len(),
        ensures
            *r == self.skeletons()[skeleton.0 as int].bones()[bone.0 as int],
    {
        &self.skeletons[skeleton.0].bones[bone.0]
    }

    /// Settles the bones of every skeleton from the anchor nodes' poses.
    fn settle_bones(&mut self)
        requires
            old(self).wf(),
        ensures
            final(self).wf(),
            final(self).parents() == old(self).parents(),
            final(self).nodes() == old(self).nodes(),
            final(self).skeletons().len() == old(self).skeletons().len(),
            forall|s: int|
                #![trigger final(self).skeletons()[s]]
                0 <= s < old(self).skeletons().len() ==> Self::bones_settled(
                    old(self).skeletons()[s],
                    final(self).skeletons()[s],
                    final(self).nodes()[old(self).skeletons()[s].anchor().0 as int].world,
                    old(self).skeletons()[s].bones().len() as int,
                ),
    {
        let ghost old_skeletons = self.skeletons();
        let m = self.skeletons.len();
        let mut s: usize = 0;
        while s < m
            invariant
                self.wf(),
                m == self.skeletons().len(),
                m == old_skeletons.len(),
                s <= m,
                self.parents() == old(self).parents(),
                self.nodes() == old(self).nodes(),
                forall|t: int|
                    #![trigger self.skeletons()[t]]
                    0 <= t < s ==> Self::bones_settled(
                        old_skeletons[t],
                        self.skeletons()[t],
                        self.nodes()[old_skeletons[t].anchor().0 as int].world,
                        old_skeletons[t].bones().len() as int,
                    ),
                forall|t: int| #![trigger self.skeletons()[t]] s <= t < m ==> self.skeletons()[t] == old_skeletons[t],
            decreases m - s,
        {
            assert(self.skeletons()[s as int].wf(self.nodes().len() as int));
            let anchor = self.nodes[self.skeletons[s].node.0].world;
            let count = self.skeletons[s].bones.len();
            let mut j: usize = 0;
            while j < count
                invariant
                    self.wf(),
                    m == self.skeletons().len(),
                    s < m,
                    j <= count,
                    self.parents() == old(self).parents(),
                    self.nodes() == old(self).nodes(),
                    anchor == self.nodes()[old_skeletons[s as int].anchor().0 as int].world,
                    count == old_skeletons[s as int].bones().len(),
                    forall|t: int|
                        #![trigger self.skeletons()[t]]
                        0 <= t < s ==> Self::bones_settled(
                            old_skeletons[t],
                            self.skeletons()[t],
                            self.nodes()[old_skeletons[t].anchor().0 as int].world,
                            old_skeletons[t].bones().len() as int,
                        ),
                    forall|t: int| #![trigger self.skeletons()[t]] s < t < m ==> self.skeletons()[t] == old_skeletons[t],
                    Self::bones_settled(old_skeletons[s as int], self.skeletons()[s as int], anchor, j as int),
                    forall|k: int|
                        #![trigger self.skeletons()[s as int].bones()[k]]
                        j <= k < count ==> self.skeletons()[s as int].bones()[k] == old_skeletons[s as int].bones()[k],
                decreases count - j,
            {
                let ghost before = self.skeletons();
                assert(bone_parent_before(self.skeletons()[s as int].bone_parents()[j as int], j as int));
                let w = match self.skeletons[s].bone_parents[j] {
                    Some(b) => self.skeletons[s].bones[b.0].world.concat(&self.skeletons[s].bones[j].local),
                    None => anchor.concat(&self.skeletons[s].bones[j].local),
                };
                self.skeletons[s].bones[j].world = w;
                assert(self.skeletons()[s as int].wf(self.nodes().len() as int)) by {
                    assert(before[s as int].wf(self.nodes().len() as int));
                    let sk = self.skeletons()[s as int];
                    assert forall|k: int| 0 <= k < sk.bone_parents().len() implies bone_parent_before(
                        #[trigger] sk.bone_parents()[k],
                        k,
                    ) by {
                        assert(bone_parent_before(before[s as int].bone_parents()[k], k));
                    }
                }
                assert forall|t: int| 0 <= t < self.skeletons().len() implies (
                #[trigger] self.skeletons()[t]).wf(self.nodes().len() as int) by {
                    assert(before[t].wf(self.nodes().len() as int));
                }
                assert forall|i: int| 0 <= i < self.parents().len() implies parent_before(
                    #[trigger] self.parents()[i],
                    i,
                    self.skeletons(),
                ) by {
                    assert(parent_before(self.parents()[i], i, before));
                }
                let ghost sk = self.skeletons()[s as int];
                let ghost sk0 = old_skeletons[s as int];
                assert forall|k: int| 0 <= k <= j implies #[trigger] sk.bones()[k].world == bone_world(
                    sk0.bone_parents()[k],
                    sk0.bones()[k].local,
                    anchor,
                    sk.bones(),
                ) by {
                    assert(bone_parent_before(sk0.bone_parents()[k], k)) by {
                        assert(sk0.wf(self.nodes().len() as int));
                    }
                    if k < j {
                        assert(before[s as int].bones()[k].world == bone_world(
                            sk0.bone_parents()[k],
                            sk0.bones()[k].local,
                            anchor,
                            before[s as int].bones(),
                        ));
                    }
                }
                j = j + 1;
            }
            s = s + 1;
        }
    }

    /// `sk` is `sk0` with the poses of its first `upto` bones settled from
    /// `anchor`, and nothing else changed.
    pub open spec fn bones_settled(sk0: Skeleton<T>, sk: Skeleton<T>, anchor: T, upto: int) -> bool {
        &&& sk.name == sk0.name
        &&& sk.anchor() == sk0.anchor()
        &&& sk.bone_parents() == sk0.bone_parents()
        &&& sk.bones().len() == sk0.bones().len()
        &&& forall|k: int|
            #![trigger sk.bones()[k]]
            0 <= k < sk0.bones().len() ==> {
                &&& sk.bones()[k].name == sk0.bones()[k].name
                &&& sk.bones()[k].local == sk0.bones()[k].local
                &&& sk.bones()[k].bind_pose == sk0.bones()[k].bind_pose
                &&& sk.bones()[k].bind_pose_root_inverse == sk0.bones()[k].bind_pose_root_inverse
            }
        &&& forall|k: int|
            #![trigger sk.bones()[k]]
            0 <= k < upto ==> sk.bones()[k].world == bone_world(
                sk0.bone_parents()[k],
                sk0.bones()[k].local,
                anchor,
                sk.bones(),
            )
    }


    /// `after` is `before` with every absolute pose recomputed: a node's
    /// from its parent's new pose (a bone's pose as it stood in `before`,
    /// for a node attached to a bone), a bone's from its parent bone's new
    /// pose or its anchor node's new pose. Names, local poses and structure
    /// are unchanged.
    pub open spec fn updated(before: World<T>, after: World<T>) -> bool {
        &&& after.parents() == before.parents()
        &&& after.nodes().len() == before.nodes().len()
        &&& after.skeletons().len() == before.skeletons().len()
        &&& forall|i: int|
            #![trigger after.nodes()[i]]
            0 <= i < before.nodes().len() ==> {
                &&& after.nodes()[i].name == before.nodes()[i].name
                &&& after.nodes()[i].local == before.nodes()[i].local
                &&& after.nodes()[i].world == node_world(
                    before.parents()[i],
                    before.nodes()[i].local,
                    after.nodes(),
                    before.skeletons(),
                )
            }
        &&& forall|s: int|
            #![trigger after.skeletons()[s]]
            0 <= s < before.skeletons().len() ==> Self::bones_settled(
                before.skeletons()[s],
                after.skeletons()[s],
                after.nodes()[before.skeletons()[s].anchor().0 as int].world,
                before.skeletons()[s].bones().len() as int,
            )
    }

    pub fn get_skeleton(&self, id: SkeletonId) -> (r: &Skeleton<T>)
        requires
            id.0 < self.skeletons().len(),
        ensures
            *r == self.skeletons()[id.0 as int],
    {
        &self.skeletons[id.0]
    }

    /// Write access to a bone's name and transforms; its parent stays.
    pub fn mut_bone(&mut self, skeleton: SkeletonId, bone: BoneId) -> (r: &mut Bone<T>)
        requires
            old(self).wf(),
            skeleton.0 < old(self).skeletons().len(),
            bone.0 < old(self).skeletons()[skeleton.0 as int].bones().len(),
        ensures
            *r == old(self).skeletons()[skeleton.0 as int].bones()[bone.0 as int],
            final(self).nodes() == old(self).nodes(),
            final(self).parents() == old(self).parents(),
            final(self).skeletons().len() == old(self).skeletons().len(),
            forall|s: int|
                0 <= s < old(self).skeletons().len() && s != skeleton.0 ==> final(self).skeletons()[s]
                    == old(self).skeletons()[s],
            ({
                let (sk0, sk) = (old(self).skeletons()[skeleton.0 as int], final(self).skeletons()[skeleton.0 as int]);
                &&& sk.name == sk0.name
                &&& sk.anchor() == sk0.anchor()
                &&& sk.bone_parents() == sk0.bone_parents()
                &&& sk.bones() == sk0.bones().update(bone.0 as int, *final(r))
            }),
    {
        &mut self.skeletons[skeleton.0].bones[bone.0]
    }

    /// Recomputes every absolute pose from the local ones.
    ///
    /// Nodes are settled first, in creation order; then each skeleton's
    /// bones, in order, from the anchor nodes' new poses. A node attached to
    /// a bone therefore reads that bone's pose as it stood before this call:
    /// it trails the bone by one update.
    pub fn update(&mut self)
        requires
            old(self).wf(),
        ensures
            final(self).wf(),
            Self::updated(*old(self), *final(self)),
    {
        let ghost old_nodes = self.nodes();
        let ghost old_skeletons = self.skeletons();
        let n = self.nodes.len();
        let mut i: usize = 0;
        while i < n
            invariant
                self.wf(),
                n == self.nodes().len(),
                i <= n,
                self.parents() == old(self).parents(),
                self.skeletons() == old_skeletons,
                old_nodes.len() == n,
                forall|k: int|
                    #![trigger self.nodes()[k]]
                    0 <= k < n ==> self.nodes()[k].name == old_nodes[k].name
                        && self.nodes()[k].local == old_nodes[k].local,
                forall|k: int|
                    #![trigger self.nodes()[k]]
                    0 <= k < i ==> self.nodes()[k].world == node_world(
                        self.parents()[k],
                        old_nodes[k].local,
                        self.nodes(),
                        old_skeletons,
                    ),
            decreases n - i,
        {
            let ghost before = self.nodes();
            assert(parent_before(self.parents()[i as int], i as int, self.skeletons()));
            let w = match self.parents[i] {
                Parent::Root => self.nodes[i].local,
                Parent::Domestic(p) => self.nodes[p.0].world.concat(&self.nodes[i].local),
                Parent::Foreign(s, b) => self.skeletons[s.0].bones[b.0].world.concat(
                    &self.nodes[i].local,
                ),
            };
            self.nodes[i].world = w;
            assert forall|k: int| 0 <= k <= i implies #[trigger] self.nodes()[k].world == node_world(
                self.parents()[k],
                old_nodes[k].local,
                self.nodes(),
                old_skeletons,
            ) by {
                assert(parent_before(self.parents()[k], k, self.skeletons()));
                if k < i {
                    assert(before[k].world == node_world(
                        self.parents()[k],
                        old_nodes[k].local,
                        before,
                        old_skeletons,
                    ));
                }
            }
            i = i + 1;
        }
        self.settle_bones();
    }
}

/// After an update, a root node's absolute pose is its local pose, and a
/// child's absolute pose is its parent's absolute pose composed with the
/// child's local pose.
pub proof fn lemma_child_follows_parent<T: Pose>(before: World<T>, after: World<T>, a: NodeId, b: NodeId)
    requires
        before.wf(),
        World::updated(before, after),
        a.0 < before.nodes().len(),
        b.0 < before.nodes().len(),
        before.parents()[a.0 as int] == Parent::Root,
        before.parents()[b.0 as int] == Parent::Domestic(a),
    ensures
        after.nodes()[a.0 as int].world == before.nodes()[a.0 as int].local,
        after.nodes()[b.0 as int].world == T::compose(
            after.nodes()[a.0 as int].world,
            before.nodes()[b.0 as int].local,
        ),
{
    assert(after.nodes()[a.0 as int].world == node_world(
        before.parents()[a.0 as int],
        before.nodes()[a.0 as int].local,
        after.nodes(),
        before.skeletons(),
    ));
    assert(after.nodes()[b.0 as int].world == node_world(
        before.parents()[b.0 as int],
        before.nodes()[b.0 as int].local,
        after.nodes(),
        before.skeletons(),
    ));
}

/// In a well-formed world, a node's parent node always has a smaller index:
/// the order of creation is an order in which parents come first.
pub proof fn lemma_parent_precedes<T: Pose>(world: World<T>, i: int)
    requires
        world.wf(),
        0 <= i < world.nodes().len(),
    ensures
        world.parents()[i] matches Parent::Domestic(p) ==> p.0 < i,
{
    assert(parent_before(world.parents()[i], i, world.skeletons()));
}

} // verus!
