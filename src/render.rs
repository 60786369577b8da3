use vstd::prelude::*;
use vstd::set_lib::lemma_subset_equality;
use core::cmp::Ordering;
use crate::pose::Pose;
use vstd::view::View as _;

verus! {

/// Integer proxy for view-space distance, used to order draw calls.
pub type Depth = u32;

/// One frame's instance of a batch, queued for drawing.
#[derive(Debug)]
pub struct Object<P> {
    /// Identity of the batch: objects with equal identity share draw state.
    pub batch: u32,
    /// Shader parameters, handed to the renderer untouched.
    pub parameters: P,
    pub depth: Depth,
}

impl<P> Object<P> {
    pub fn new(batch: u32, parameters: P, depth: Depth) -> (r: Object<P>)
        ensures
            r == (Object { batch, parameters, depth }),
    {
        Object { batch, parameters, depth }
    }
}

/// How a queue orders its objects.
#[derive(Clone, Copy, Debug, PartialEq, Eq, Structural)]
pub enum Order {
    /// By batch identity, then front to back: fewest state changes, least
    /// overdraw for opaque geometry.
    Opaque,
    /// Ascending depth.
    FrontToBack,
    /// Descending depth, as transparent geometry needs.
    BackToFront,
    /// Every pair compares equal.
    Unordered,
}

/// The integer that `order` sorts an object by: `a` comes no later than
/// `b` exactly when its key is not greater.
pub open spec fn sort_key<P>(order: Order, o: Object<P>) -> int {
    match order {
        Order::Opaque => o.batch as int * 0x1_0000_0000 + o.depth as int,
        Order::FrontToBack => o.depth as int,
        Order::BackToFront => -(o.depth as int),
        Order::Unordered => 0,
    }
}

pub open spec fn ordering_of(a: int, b: int) -> Ordering {
    if a < b {
        Ordering::Less
    } else if a > b {
        Ordering::Greater
    } else {
        Ordering::Equal
    }
}

/// Compares two objects under `order`.
pub fn compare<P>(order: Order, a: &Object<P>, b: &Object<P>) -> (r: Ordering)
    ensures
        r == ordering_of(sort_key(order, *a), sort_key(order, *b)),
{
    let (ka, kb): (i128, i128) = match order {
        Order::Opaque => (
            a.batch as i128 * 0x1_0000_0000 + a.depth as i128,
            b.batch as i128 * 0x1_0000_0000 + b.depth as i128,
        ),
        Order::FrontToBack => (a.depth as i128, b.depth as i128),
        Order::BackToFront => (-(a.depth as i128), -(b.depth as i128)),
        Order::Unordered => (0, 0),
    };
    if ka < kb {
        Ordering::Less
    } else if ka > kb {
        Ordering::Greater
    } else {
        Ordering::Equal
    }
}

/// Opaque ordering: batch identity first, then depth, both ascending.
pub fn order_opaque<P>(a: &Object<P>, b: &Object<P>) -> (r: Ordering)
    ensures
        r == ordering_of(sort_key(Order::Opaque, *a), sort_key(Order::Opaque, *b)),
        r == (if a.batch != b.batch {
            ordering_of(a.batch as int, b.batch as int)
        } else {
            ordering_of(a.depth as int, b.depth as int)
        }),
{
    compare(Order::Opaque, a, b)
}

/// `s` holds each position of a sequence of its own length exactly once.
pub open spec fn is_permutation(s: Seq<usize>) -> bool {
    &&& forall|k: int| 0 <= k < s.len() ==> #[trigger] s[k] < s.len()
    &&& s.no_duplicates()
}

/// Values below `n`, as a set.
pub open spec fn below(n: int) -> Set<usize> {
    Set::new(|v: usize| v < n)
}

proof fn lemma_below_len(n: nat)
    requires
        n <= usize::MAX,
    ensures
        below(n as int).finite(),
        below(n as int).len() == n,
    decreases n,
{
    if n == 0 {
        assert(below(0) =~= Set::empty());
    } else {
        lemma_below_len((n - 1) as nat);
        assert(below(n as int) =~= below(n - 1).insert((n - 1) as usize));
    }
}

/// A duplicate-free sequence of values below `n` that holds every value
/// below `n` has length `n`.
proof fn lemma_exact_cover(s: Seq<usize>, n: nat)
    requires
        n <= usize::MAX,
        s.no_duplicates(),
        forall|k: int| 0 <= k < s.len() ==> #[trigger] s[k] < n,
        forall|v: usize| v < n ==> s.contains(v),
    ensures
        s.len() == n,
{
    lemma_below_len(n);
    s.unique_seq_to_set();
    assert(s.to_set() =~= below(n as int));
}

/// A permutation holds every position.
proof fn lemma_permutation_covers(s: Seq<usize>)
    requires
        s.len() <= usize::MAX,
        is_permutation(s),
    ensures
        forall|v: usize| v < s.len() ==> s.contains(v),
{
    lemma_below_len(s.len());
    s.unique_seq_to_set();
    vstd::seq_lib::seq_to_set_is_finite(s);
    assert(s.to_set().subset_of(below(s.len() as int)));
    lemma_subset_equality(s.to_set(), below(s.len() as int));
    assert forall|v: usize| v < s.len() implies s.contains(v) by {
        assert(below(s.len() as int).contains(v));
    }
}

/// Objects of one frame, plus the order in which to draw them.
///
/// The objects never move; sorting only permutes `indices`. Callers push
/// to and truncate `objects` directly; `update` brings the permutation back
/// in line.
#[derive(Debug)]
pub struct Queue<P> {
    pub objects: Vec<Object<P>>,
    indices: Vec<usize>,
}

impl<P> Queue<P> {
    pub closed spec fn objects(&self) -> Seq<Object<P>> {
        self.objects@
    }

    /// The draw order, as positions in `objects`.
    pub closed spec fn indices(&self) -> Seq<usize> {
        self.indices@
    }

    pub open spec fn wf(&self) -> bool {
        is_permutation(self.indices())
    }

    /// The permutation covers exactly the current objects.
    pub open spec fn synced(&self) -> bool {
        self.wf() && self.indices().len() == self.objects().len()
    }

    /// The objects in draw order.
    pub open spec fn ordered(&self) -> Seq<Object<P>> {
        self.indices().map_values(|i: usize| self.objects()[i as int])
    }

    pub fn new() -> (r: Queue<P>)
        ensures
            r.synced(),
            r.objects().len() == 0,
    {
        Queue { objects: Vec::new(), indices: Vec::new() }
    }

    /// Appends an object; same as pushing to `objects`.
    pub fn push(&mut self, object: Object<P>)
        ensures
            final(self).objects() == old(self).objects().push(object),
            final(self).indices() == old(self).indices(),
    {
        self.objects.push(object);
    }

    /// Keeps the first `len` objects; same as truncating `objects`.
    pub fn truncate(&mut self, len: usize)
        ensures
            final(self).objects() == (if len < old(self).objects().len() {
                old(self).objects().take(len as int)
            } else {
                old(self).objects()
            }),
            final(self).indices() == old(self).indices(),
    {
        self.objects.truncate(len);
    }

    /// The draw order, as positions in `objects`.
    pub fn draw_order(&self) -> (r: &[usize])
        ensures
            r@ == self.indices(),
    {
        self.indices.as_slice()
    }

    /// Whether the permutation has as many entries as there are objects.
    pub fn is_updated(&self) -> (r: bool)
        ensures
            r == (self.indices().len() == self.objects().len()),
    {
        self.objects.len() == self.indices.len()
    }

    /// `after` holds the objects of `before`, with the permutation brought
    /// in line with them: new positions appended in order when there are
    /// more objects than positions; positions past the end dropped, the
    /// others keeping their order, when there are fewer.
    pub open spec fn reconciled(before: Queue<P>, after: Queue<P>) -> bool {
        &&& after.objects() == before.objects()
        &&& before.objects().len() >= before.indices().len() ==> after.indices() == before.indices()
            + Seq::new(
            (before.objects().len() - before.indices().len()) as nat,
            |k: int| (before.indices().len() + k) as usize,
        )
        &&& before.objects().len() < before.indices().len() ==> after.indices()
            == before.indices().filter(|i: usize| i < before.objects().len())
    }

    /// Brings the permutation in line with `objects`: new positions are
    /// appended in order when objects were added; positions past the end
    /// are dropped, the others keeping their order, when objects were
    /// truncated.
    pub fn update(&mut self)
        requires
            old(self).wf(),
        ensures
            final(self).synced(),
            Self::reconciled(*old(self), *final(self)),
    {
        let ni = self.indices.len();
        let no = self.objects.len();
        if no >= ni {
            let mut i: usize = ni;
            while i < no
                invariant
                    ni <= i <= no,
                    no == self.objects().len(),
                    self.objects == old(self).objects,
                    ni == old(self).indices().len(),
                    self.indices() == old(self).indices() + Seq::new(
                        (i - ni) as nat,
                        |k: int| (ni + k) as usize,
                    ),
                    is_permutation(self.indices()),
                decreases no - i,
            {
                let ghost before = self.indices();
                self.indices.push(i);
                assert(self.indices() =~= old(self).indices() + Seq::new(
                    (i + 1 - ni) as nat,
                    |k: int| (ni + k) as usize,
                ));
                assert(self.indices().no_duplicates()) by {
                    assert forall|a: int, b: int|
                        0 <= a < self.indices().len() && 0 <= b < self.indices().len() && a != b
                        implies self.indices()[a] != self.indices()[b] by {
                        if a < before.len() && b < before.len() {
                        } else if a < before.len() {
                            assert(before[a] < before.len());
                        } else if b < before.len() {
                            assert(before[b] < before.len());
                        }
                    }
                }
                i = i + 1;
            }
        } else {
            let ghost s = old(self).indices();
            let ghost pred: spec_fn(usize) -> bool = |v: usize| v < no;
            proof {
                lemma_permutation_covers(s);
            }
            let mut kept: Vec<usize> = Vec::new();
            let ghost mut src: Seq<int> = Seq::empty();
            let mut k: usize = 0;
            while k < ni
                invariant
                    k <= ni,
                    ni == s.len(),
                    no == self.objects().len(),
                    self.indices() == s,
                    is_permutation(s),
                    pred == (|v: usize| v < no),
                    kept@ == s.take(k as int).filter(pred),
                    kept@.no_duplicates(),
                    src.len() == kept@.len(),
                    forall|a: int|
                        #![trigger kept@[a]]
                        #![trigger src[a]]
                        0 <= a < kept@.len() ==> 0 <= src[a] < k && s[src[a]] == kept@[a]
                            && kept@[a] < no,
                    forall|j: int| #![trigger s[j]] 0 <= j < k && s[j] < no ==> kept@.contains(s[j]),
                decreases ni - k,
            {
                let v = self.indices[k];
                proof {
                    assert(s.take(k + 1) =~= s.take(k as int).push(v));
                    s.take(k as int).lemma_filter_push(v, pred);
                    assert(pred(v) == (v < no));
                }
                let ghost src0 = src;
                if v < no {
                    proof {
                        assert forall|a: int| 0 <= a < kept@.len() implies kept@[a] != v by {
                            assert(s[src0[a]] == kept@[a]);
                        }
                        src = src.push(k as int);
                    }
                    let ghost prev = kept@;
                    kept.push(v);
                    proof {
                        assert forall|a: int|
                            #![trigger kept@[a]]
                            #![trigger src[a]]
                            0 <= a < kept@.len() implies (0 <= src[a] < k + 1 && s[src[a]] == kept@[a]
                                && kept@[a] < no) by {
                            if a < prev.len() {
                                assert(src[a] == src0[a] && prev[a] == kept@[a]);
                            }
                        }
                        assert forall|j: int|
                            #![trigger s[j]]
                            0 <= j < k + 1 && s[j] < no implies kept@.contains(s[j]) by {
                            if j < k {
                                assert(prev.contains(s[j]));
                                let a = choose|a: int| 0 <= a < prev.len() && prev[a] == s[j];
                                assert(kept@[a] == s[j]);
                            } else {
                                assert(kept@[kept@.len() - 1] == s[j]);
                            }
                        }
                    }
                }
                k = k + 1;
            }
            proof {
                assert(s.take(ni as int) =~= s);
                assert forall|v: usize| v < no implies kept@.contains(v) by {
                    assert(s.contains(v));
                    let j = choose|j: int| 0 <= j < s.len() && s[j] == v;
                    assert(s[j] < no);
                }
                assert forall|a: int| 0 <= a < kept@.len() implies #[trigger] kept@[a] < no by {
                }
                lemma_exact_cover(kept@, no as nat);
            }
            self.indices = kept;
        }
    }

    /// Sorts the draw order by `order`; the objects themselves stay where
    /// they are. Brings the permutation in line with the objects first.
    pub fn sort(&mut self, order: Order)
        requires
            old(self).wf(),
        ensures
            final(self).synced(),
            final(self).objects() == old(self).objects(),
            sorted_by(order, final(self).ordered()),
    {
        self.update();
        let n = self.indices.len();
        let mut i: usize = 1;
        while i < n
            invariant
                self.synced(),
                n == self.indices().len(),
                self.objects() == old(self).objects(),
                1 <= i || n == 0,
                i <= n || n == 0,
                prefix_sorted(order, self.objects(), self.indices(), i as int),
            decreases n - i,
        {
            let mut j: usize = i;
            while j > 0 && matches!(
                compare(order, &self.objects[self.indices[j - 1]], &self.objects[self.indices[j]]),
                Ordering::Greater
            )
                invariant
                    self.synced(),
                    n == self.indices().len(),
                    self.objects() == old(self).objects(),
                    1 <= i < n,
                    j <= i,
                    sorted_except(order, self.objects(), self.indices(), i as int, j as int),
                    forall|b: int|
                        j < b <= i ==> rank(order, self.objects(), self.indices(), j as int) < rank(
                            order,
                            self.objects(),
                            self.indices(),
                            b,
                        ),
                decreases j,
            {
                let ghost before = self.indices();
                let a = self.indices[j - 1];
                let b = self.indices[j];
                self.indices.set(j - 1, b);
                self.indices.set(j, a);
                proof {
                    let after = self.indices();
                    assert(after =~= before.update(j - 1, b).update(j as int, a));
                    assert(after.no_duplicates()) by {
                        assert forall|x: int, y: int|
                            0 <= x < after.len() && 0 <= y < after.len() && x != y implies after[x]
                            != after[y] by {
                            let px = if x == j - 1 { j as int } else if x == j { j - 1 } else { x };
                            let py = if y == j - 1 { j as int } else if y == j { j - 1 } else { y };
                            assert(after[x] == before[px]);
                            assert(after[y] == before[py]);
                        }
                    }
                    let objs = self.objects();
                    assert forall|x: int, y: int|
                        0 <= x < y <= i && x != j - 1 && y != j - 1 implies rank(order, objs, after, x)
                        <= rank(order, objs, after, y) by {
                        let px = if x == j { j - 1 } else { x };
                        let py = if y == j { j - 1 } else { y };
                        assert(rank(order, objs, after, x) == rank(order, objs, before, px));
                        assert(rank(order, objs, after, y) == rank(order, objs, before, py));
                    }
                    assert forall|y: int| j - 1 < y <= i implies rank(order, objs, after, j - 1)
                        < #[trigger] rank(order, objs, after, y) by {
                        if y > j {
                            assert(rank(order, objs, after, y) == rank(order, objs, before, y));
                        }
                    }
                }
                j = j - 1;
            }
            proof {
                let objs = self.objects();
                let ind = self.indices();
                assert forall|x: int, y: int| 0 <= x < y <= i implies rank(order, objs, ind, x) <= rank(
                    order,
                    objs,
                    ind,
                    y,
                ) by {
                    if x == j && y > j {
                    } else if y == j && x < j {
                        assert(rank(order, objs, ind, x) <= rank(order, objs, ind, j - 1));
                    } else if x != j && y != j {
                    }
                }
            }
            i = i + 1;
        }
        proof {
            let objs = self.objects();
            let ind = self.indices();
            if n > 0 {
                assert forall|k: int| 0 <= k < n - 1 implies sort_key(order, #[trigger] self.ordered()[k])
                    <= sort_key(order, self.ordered()[k + 1]) by {
                    assert(rank(order, objs, ind, k) <= rank(order, objs, ind, k + 1));
                }
            }
        }
    }

    /// The objects in draw order.
    pub fn iter(&self) -> (r: Vec<&Object<P>>)
        requires
            self.synced(),
        ensures
            r@.len() == self.ordered().len(),
            forall|k: int| 0 <= k < r@.len() ==> *#[trigger] r@[k] == self.ordered()[k],
    {
        let mut out: Vec<&Object<P>> = Vec::new();
        let mut k: usize = 0;
        while k < self.indices.len()
            invariant
                self.synced(),
                k <= self.indices().len(),
                out@.len() == k,
                forall|x: int| 0 <= x < k ==> *#[trigger] out@[x] == self.ordered()[x],
            decreases self.indices().len() - k,
        {
            out.push(&self.objects[self.indices[k]]);
            k = k + 1;
        }
        out
    }
}

/// Sort key of the object at draw position `k`.
pub open spec fn rank<P>(order: Order, objects: Seq<Object<P>>, indices: Seq<usize>, k: int) -> int {
    sort_key(order, objects[indices[k] as int])
}

/// The first `upto` draw positions are in order.
pub open spec fn prefix_sorted<P>(order: Order, objects: Seq<Object<P>>, indices: Seq<usize>, upto: int) -> bool {
    forall|x: int, y: int|
        0 <= x < y < upto ==> rank(order, objects, indices, x) <= rank(order, objects, indices, y)
}

/// Draw positions up to `upto` are in order, leaving out position `hole`.
pub open spec fn sorted_except<P>(
    order: Order,
    objects: Seq<Object<P>>,
    indices: Seq<usize>,
    upto: int,
    hole: int,
) -> bool {
    forall|x: int, y: int|
        0 <= x < y <= upto && x != hole && y != hole ==> rank(order, objects, indices, x) <= rank(
            order,
            objects,
            indices,
            y,
        )
}

/// No neighbouring pair of `objects` compares `Greater` under `order`.
pub open spec fn sorted_by<P>(order: Order, objects: Seq<Object<P>>) -> bool {
    forall|k: int|
        0 <= k < objects.len() - 1 ==> sort_key(order, #[trigger] objects[k]) <= sort_key(
            order,
            objects[k + 1],
        )
}

/// Depth key of a view-space distance: the distance's place between the
/// near and the far plane, scaled linearly to `0 ..= max_depth`. Distances
/// outside the two planes are clamped to them. Needs `near != far`.
pub open spec fn depth_key(distance: int, near: int, far: int, max_depth: int) -> int {
    let (t, w) = if near < far {
        (distance - near, far - near)
    } else {
        (near - distance, near - far)
    };
    let t = if t < 0 {
        0
    } else if t > w {
        w
    } else {
        t
    };
    max_depth * t / w
}

/// Quantizes a view-space distance into a depth key.
pub fn quantize_depth(distance: i64, near: i64, far: i64, max_depth: Depth) -> (r: Depth)
    requires
        near != far,
    ensures
        r as int == depth_key(distance as int, near as int, far as int, max_depth as int),
{
    let (t, w): (i128, i128) = if near < far {
        (distance as i128 - near as i128, far as i128 - near as i128)
    } else {
        (near as i128 - distance as i128, near as i128 - far as i128)
    };
    let t: i128 = if t < 0 {
        0
    } else if t > w {
        w
    } else {
        t
    };
    proof {
        let m = max_depth as int;
        let ti = t as int;
        let wi = w as int;
        assert(0 <= m * ti <= m * wi) by (nonlinear_arith)
            requires
                0 <= ti <= wi,
                0 <= m,
        ;
        assert(m * ti <= 0xffff_ffff * 0x1_0000_0000_0000_0000) by (nonlinear_arith)
            requires
                0 <= ti <= 0x1_0000_0000_0000_0000,
                0 <= m <= 0xffff_ffff,
        ;
        vstd::arithmetic::div_mod::lemma_div_is_ordered(m * ti, m * wi, wi);
        vstd::arithmetic::div_mod::lemma_div_multiples_vanish(m, wi);
        vstd::arithmetic::div_mod::lemma_div_pos_is_pos(m * ti, wi);
    }
    let q = (max_depth as i128 * t) / w;
    q as Depth
}

/// Between the planes, a farther object never gets a smaller depth key.
pub proof fn lemma_depth_monotone(d1: int, d2: int, near: int, far: int, max_depth: int)
    requires
        0 <= max_depth,
        near <= d1 < d2 <= far,
    ensures
        depth_key(d1, near, far, max_depth) <= depth_key(d2, near, far, max_depth),
{
    let w = far - near;
    assert(max_depth * (d1 - near) <= max_depth * (d2 - near)) by (nonlinear_arith)
        requires
            d1 < d2,
            0 <= max_depth,
    ;
    vstd::arithmetic::div_mod::lemma_div_is_ordered(max_depth * (d1 - near), max_depth * (d2 - near), w);
}

/// What the data of one draw is checked against: nothing, for now.
pub type Bound = ();

/// One camera's view: turns world poses into depth keys and collects the
/// objects of a frame in a queue.
#[derive(Debug)]
pub struct View<P, T> {
    cam_inverse: T,
    near: i64,
    far: i64,
    max_depth: Depth,
    queue: Queue<P>,
}

impl<P, T: Pose> View<P, T> {
    pub closed spec fn camera(&self) -> T {
        self.cam_inverse
    }

    pub closed spec fn near(&self) -> int {
        self.near as int
    }

    pub closed spec fn far(&self) -> int {
        self.far as int
    }

    pub closed spec fn max_depth(&self) -> int {
        self.max_depth as int
    }

    pub closed spec fn queue_view(&self) -> Queue<P> {
        self.queue
    }

    pub open spec fn wf(&self) -> bool {
        self.near() != self.far() && self.queue_view().wf()
    }

    /// A view through `cam_inverse` (world to view space), with its near and
    /// far planes at the given distances and depth keys up to `max_depth`.
    /// Refused when the planes coincide.
    pub fn new(cam_inverse: T, near: i64, far: i64, max_depth: Depth) -> (r: Option<View<P, T>>)
        ensures
            r is None <==> near == far,
            r matches Some(v) ==> {
                &&& v.wf()
                &&& v.camera() == cam_inverse
                &&& v.near() == near
                &&& v.far() == far
                &&& v.max_depth() == max_depth
                &&& v.queue_view().objects().len() == 0
            },
    {
        if near == far {
            None
        } else {
            Some(View { cam_inverse, near, far, max_depth, queue: Queue::new() })
        }
    }

    pub fn queue(&self) -> (r: &Queue<P>)
        ensures
            *r == self.queue_view(),
    {
        &self.queue
    }

    /// Empties the queue of objects; the draw order is brought in line by
    /// the next sort.
    pub fn clear(&mut self)
        requires
            old(self).wf(),
        ensures
            final(self).wf(),
            final(self).queue_view().objects().len() == 0,
            final(self).queue_view().indices() == old(self).queue_view().indices(),
            final(self).camera() == old(self).camera(),
            final(self).near() == old(self).near(),
            final(self).far() == old(self).far(),
            final(self).max_depth() == old(self).max_depth(),
    {
        self.queue.objects.clear();
    }

    /// Queues one object, posed at `transform` in the world, with its depth
    /// key taken from its distance along the viewing axis.
    pub fn add(&mut self, batch: u32, data: P, transform: &T, _bound: Bound)
        requires
            old(self).wf(),
        ensures
            final(self).wf(),
            final(self).queue_view().objects() == old(self).queue_view().objects().push(
                Object {
                    batch,
                    parameters: data,
                    depth: depth_key(
                        T::compose(old(self).camera(), *transform).depth(),
                        old(self).near(),
                        old(self).far(),
                        old(self).max_depth(),
                    ) as Depth,
                },
            ),
            final(self).queue_view().indices() == old(self).queue_view().indices(),
            final(self).camera() == old(self).camera(),
            final(self).near() == old(self).near(),
            final(self).far() == old(self).far(),
            final(self).max_depth() == old(self).max_depth(),
    {
        let view = self.cam_inverse.concat(transform);
        let distance = view.view_depth();
        let depth = quantize_depth(distance, self.near, self.far, self.max_depth);
        self.queue.objects.push(Object { batch, parameters: data, depth });
    }

    /// Sorts the queue in the opaque order (batch, then front to back) and
    /// hands out the objects in the order in which to draw them.
    pub fn render(&mut self) -> (r: Vec<&Object<P>>)
        requires
            old(self).wf(),
        ensures
            final(self).wf(),
            final(self).queue_view().synced(),
            final(self).queue_view().objects() == old(self).queue_view().objects(),
            sorted_by(Order::Opaque, final(self).queue_view().ordered()),
            r@.len() == final(self).queue_view().ordered().len(),
            forall|k: int| 0 <= k < r@.len() ==> *#[trigger] r@[k] == final(self).queue_view().ordered()[k],
    {
        self.queue.sort(Order::Opaque);
        self.queue.iter()
    }
}

/// Bringing a queue in line with its objects a second time changes
/// nothing: once in line, the draw order stays as it is.
pub proof fn lemma_update_idempotent<P>(before: Queue<P>, after: Queue<P>)
    requires
        before.synced(),
        Queue::reconciled(before, after),
    ensures
        after.indices() == before.indices(),
        after.objects() == before.objects(),
{
    assert(before.indices() + Seq::new(0, |k: int| (before.indices().len() + k) as usize)
        =~= before.indices());
}

/// In a sorted draw order, no object compares `Greater` than the next one.
pub proof fn lemma_sorted_never_greater<P>(order: Order, objects: Seq<Object<P>>, k: int)
    requires
        sorted_by(order, objects),
        0 <= k < objects.len() - 1,
    ensures
        ordering_of(sort_key(order, objects[k]), sort_key(order, objects[k + 1])) != Ordering::Greater,
{
}

} // verus!
