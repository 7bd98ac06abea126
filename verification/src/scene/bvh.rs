//! The hierarchy of bounding boxes: its nodes and the search for the
//! nearest collision through it.
use vstd::prelude::*;
use crate::geometry::hitbox::{lemma_intersects_farther, lemma_intersects_larger, HitBox};
use crate::geometry::ray::Ray;
use crate::geometry::scalar::Scalar;
use crate::geometry::vector::Vector;
use crate::scene::elements::{CollisionInfo, SceneElement, Sphere, Triangle};
use crate::scene::order::{sort_by_axis, spec_sorted};
use crate::utils::utils::Axis;

verus! {

/// An inner node: two elements and the box that holds both.
#[derive(Debug)]
pub struct BVHNode {
    pub left: Box<SceneElement>,
    pub right: Box<SceneElement>,
    pub hitbox: HitBox,
}

/// The hierarchy over a scene without shapes. No ray collides with it.
#[derive(Debug)]
pub struct EmptyBVHNode {
    pub hitbox: HitBox,
}

impl BVHNode {
    /// The left child is searched first: the centre of its box lies nearer
    /// to the origin of the ray than that of the right child.
    pub open spec fn spec_left_first(self, ray: Ray) -> bool {
        self.left.spec_hitbox().spec_distance(ray.origin).raw < self.right.spec_hitbox().spec_distance(
            ray.origin,
        ).raw
    }

    /// The nearest collision of `ray` below this node within
    /// `max_distance`: none where the ray misses the box of the node within
    /// that distance; else the outcome of searching first the child whose
    /// box centre lies nearer to the origin of the ray, then the other.
    pub open spec fn spec_collide(self, ray: Ray, max_distance: Scalar) -> Option<CollisionInfo>
        decreases self,
    {
        if !self.hitbox.spec_intersects(ray, max_distance) {
            None
        } else if self.spec_left_first(ray) {
            match self.left.spec_collide(ray, max_distance) {
                None => self.right.spec_collide(ray, max_distance),
                Some(near) => match self.right.spec_collide(ray, near.distance) {
                    None => Some(near),
                    Some(nearer) => Some(nearer),
                },
            }
        } else {
            match self.right.spec_collide(ray, max_distance) {
                None => self.left.spec_collide(ray, max_distance),
                Some(near) => match self.left.spec_collide(ray, near.distance) {
                    None => Some(near),
                    Some(nearer) => Some(nearer),
                },
            }
        }
    }

    /// Makes a node over two elements, with the smallest box that holds the
    /// boxes of both.
    pub fn new(left: SceneElement, right: SceneElement) -> (r: BVHNode)
        ensures
            *r.left == left,
            *r.right == right,
            r.hitbox == left.spec_hitbox().spec_merge(right.spec_hitbox()),
    {
        let mut hitbox = left.hitbox();
        hitbox.merge(&right.hitbox());
        BVHNode { left: Box::new(left), right: Box::new(right), hitbox }
    }

    /// The nearest collision of `ray` below this node within `max_distance`.
    pub fn collide(&self, ray: &Ray, max_distance: Scalar) -> (r: Option<CollisionInfo>)
        ensures
            r == self.spec_collide(*ray, max_distance),
            r matches Some(info) ==> 0 < info.distance.raw <= max_distance.raw,
        decreases self,
    {
        reveal_with_fuel(SceneElement::spec_collide, 1);
        if !self.hitbox.intersects(ray, max_distance) {
            return None;
        }
        if self.left.hitbox().distance(&ray.origin).raw < self.right.hitbox().distance(
            &ray.origin,
        ).raw {
            match self.left.collide(ray, max_distance) {
                None => self.right.collide(ray, max_distance),
                Some(left) => match self.right.collide(ray, left.distance) {
                    None => Some(left),
                    Some(right) => Some(right),
                },
            }
        } else {
            match self.right.collide(ray, max_distance) {
                None => self.left.collide(ray, max_distance),
                Some(right) => match self.left.collide(ray, right.distance) {
                    None => Some(right),
                    Some(left) => Some(left),
                },
            }
        }
    }

    /// The box that holds both children.
    pub fn hitbox(&self) -> (r: HitBox)
        ensures
            r == self.hitbox,
    {
        self.hitbox
    }
}

impl EmptyBVHNode {
    /// The node of an empty scene, with a box that is a single point.
    pub fn new() -> (r: EmptyBVHNode)
        ensures
            r.hitbox == HitBox::spec_new(Vector::spec_zero(), Vector::spec_zero()),
            r.hitbox.wf(),
    {
        EmptyBVHNode { hitbox: HitBox::new(Vector::zero(), Vector::zero()) }
    }

    /// No ray collides with an empty scene.
    pub fn collide(&self, ray: &Ray, max_distance: Scalar) -> (r: Option<CollisionInfo>)
        ensures
            r is None,
    {
        None
    }

    /// The box of the empty node.
    pub fn hitbox(&self) -> (r: HitBox)
        ensures
            r == self.hitbox,
    {
        self.hitbox
    }
}

/// The smallest box that holds the boxes of the elements up to and
/// including the one at `i`.
pub open spec fn spec_prefix_box(elements: Seq<SceneElement>, i: int) -> HitBox
    decreases i,
{
    if i <= 0 {
        elements[0].spec_hitbox()
    } else {
        spec_prefix_box(elements, i - 1).spec_merge(elements[i].spec_hitbox())
    }
}

/// The smallest box that holds the boxes of the elements from the one at
/// `i` to the last.
pub open spec fn spec_suffix_box(elements: Seq<SceneElement>, i: int) -> HitBox
    decreases elements.len() - i,
{
    if i >= elements.len() - 1 {
        elements[elements.len() - 1].spec_hitbox()
    } else {
        spec_suffix_box(elements, i + 1).spec_merge(elements[i].spec_hitbox())
    }
}

/// The cost of splitting `elements` behind the one at `i`: for either
/// side, the area of the box over it times the number of elements in it.
pub open spec fn spec_split_cost(elements: Seq<SceneElement>, i: int) -> Scalar {
    spec_prefix_box(elements, i).spec_area().spec_mul(
        Scalar::spec_from_count((i + 1) as nat),
    ).spec_add(
        spec_suffix_box(elements, i + 1).spec_area().spec_mul(
            Scalar::spec_from_count((elements.len() - i - 1) as nat),
        ),
    )
}

/// `order` holds the elements of `given`, each as often, in the order of
/// their box centres along `axis`.
pub open spec fn spec_ordered(given: Seq<SceneElement>, order: Seq<SceneElement>, axis: Axis) -> bool {
    order.to_multiset() == given.to_multiset() && spec_sorted(order, axis)
}

/// Behind the position `index` lies the cheapest split of `order`, and the
/// first one among equally cheap splits.
pub open spec fn spec_cheapest(order: Seq<SceneElement>, index: int) -> bool {
    &&& 0 <= index < order.len() - 1
    &&& forall|i: int|
        0 <= i < order.len() - 1 ==> spec_split_cost(order, index).raw <= (
        #[trigger] spec_split_cost(order, i)).raw
    &&& forall|i: int|
        0 <= i < index ==> spec_split_cost(order, index).raw < (#[trigger] spec_split_cost(
            order,
            i,
        )).raw
}

/// Weighing `given` along `axis` can give the split behind `index` at the
/// cost `cost`: some order of the elements along the axis has its cheapest
/// split there, at that cost.
pub open spec fn spec_weighed(given: Seq<SceneElement>, axis: Axis, index: int, cost: Scalar) -> bool {
    exists|order: Seq<SceneElement>| #[trigger]
        spec_ordered(given, order, axis) && spec_cheapest(order, index) && cost == spec_split_cost(
            order,
            index,
        )
}

/// The axis that wins among the costs of the cheapest splits along the
/// three axes: the first whose cost lies below all before it, and the first
/// axis where no cost lies below the largest number.
pub open spec fn spec_winner(x: Scalar, y: Scalar, z: Scalar) -> Axis {
    let least = Scalar::spec_infinity().spec_min(x);
    if z.raw < least.spec_min(y).raw {
        Axis::Z
    } else if y.raw < least.raw {
        Axis::Y
    } else {
        Axis::X
    }
}

/// Arranging `given` can give the split behind `index` along `axis`: the
/// elements, weighed along the three axes, have cheapest splits of which
/// the one along `axis` wins, and it lies behind `index`.
#[verifier::opaque]
pub open spec fn spec_arranged(given: Seq<SceneElement>, axis: Axis, index: int) -> bool {
    exists|ix: int, cx: Scalar, iy: int, cy: Scalar, iz: int, cz: Scalar|
        {
            &&& #[trigger] spec_weighed(given, Axis::X, ix, cx)
            &&& #[trigger] spec_weighed(given, Axis::Y, iy, cy)
            &&& #[trigger] spec_weighed(given, Axis::Z, iz, cz)
            &&& axis == spec_winner(cx, cy, cz)
            &&& index == match axis {
                Axis::X => ix,
                Axis::Y => iy,
                Axis::Z => iz,
            }
        }
}

/// `root` is a hierarchy that building from `given` can give: the empty
/// node for no element, the element itself for one, and else a node with
/// the smallest box over its children, which are in turn hierarchies built
/// from the two parts of an arrangement of `given`.
#[verifier::opaque]
pub open spec fn spec_built(root: SceneElement, given: Seq<SceneElement>) -> bool
    decreases given.len(),
{
    if given.len() == 0 {
        root is Empty
    } else if given.len() == 1 {
        root == given[0]
    } else {
        &&& root matches SceneElement::Node(node)
        &&& node.hitbox == node.left.spec_hitbox().spec_merge(node.right.spec_hitbox())
        &&& exists|order: Seq<SceneElement>, axis: Axis, index: int|
            {
                &&& order.len() == given.len()
                &&& 0 <= index < order.len() - 1
                &&& #[trigger] spec_ordered(given, order, axis)
                &&& #[trigger] spec_arranged(given, axis, index)
                &&& spec_built(*node.left, order.subrange(0, index + 1))
                &&& spec_built(*node.right, order.subrange(index + 1, order.len() as int))
            }
    }
}

/// The areas of the boxes over the tails of `elements`, the shortest tail
/// first: the entry at `j` belongs to the tail that starts at
/// `len - 1 - j`. The tail of all elements is left out.
fn tail_areas(elements: &Vec<SceneElement>) -> (areas: Vec<Scalar>)
    requires
        elements.len() >= 2,
    ensures
        areas.len() == elements.len() - 1,
        forall|j: int|
            0 <= j < areas.len() ==> #[trigger] areas[j] == spec_suffix_box(
                elements@,
                elements.len() - 1 - j,
            ).spec_area(),
{
    let n = elements.len();
    let mut suffix = elements[n - 1].hitbox();
    let mut areas: Vec<Scalar> = Vec::new();
    areas.push(suffix.area());
    let mut k: usize = n - 1;
    while k > 1
        invariant
            n == elements.len(),
            1 <= k <= n - 1,
            areas.len() == n - k,
            suffix == spec_suffix_box(elements@, k as int),
            forall|j: int|
                0 <= j < areas.len() ==> #[trigger] areas[j] == spec_suffix_box(
                    elements@,
                    n - 1 - j,
                ).spec_area(),
        decreases k,
    {
        k -= 1;
        suffix.merge(&elements[k].hitbox());
        areas.push(suffix.area());
    }
    areas
}

/// Finds where to split `elements`, taken in their present order, at the
/// least cost: the first position behind which the cost is least, and that
/// cost.
pub fn best_split(elements: &Vec<SceneElement>) -> (r: (usize, Scalar))
    requires
        elements.len() >= 2,
    ensures
        spec_cheapest(elements@, r.0 as int),
        r.1 == spec_split_cost(elements@, r.0 as int),
{
    let n = elements.len();
    let areas = tail_areas(elements);
    let mut prefix = elements[0].hitbox();
    let mut best_index: usize = 0;
    let mut best_cost = prefix.area().mul(Scalar::from_count(1)).add(
        areas[n - 2].mul(Scalar::from_count(n - 1)),
    );
    let mut i: usize = 1;
    while i < n - 1
        invariant
            n == elements.len(),
            n >= 2,
            1 <= i <= n - 1,
            areas.len() == n - 1,
            forall|j: int|
                0 <= j < areas.len() ==> #[trigger] areas[j] == spec_suffix_box(
                    elements@,
                    n - 1 - j,
                ).spec_area(),
            prefix == spec_prefix_box(elements@, i - 1),
            best_index < i,
            best_cost == spec_split_cost(elements@, best_index as int),
            forall|j: int|
                0 <= j < i ==> best_cost.raw <= (#[trigger] spec_split_cost(elements@, j)).raw,
            forall|j: int|
                0 <= j < best_index ==> best_cost.raw < (#[trigger] spec_split_cost(
                    elements@,
                    j,
                )).raw,
        decreases n - i,
    {
        prefix.merge(&elements[i].hitbox());
        let cost = prefix.area().mul(Scalar::from_count(i + 1)).add(
            areas[n - 2 - i].mul(Scalar::from_count(n - i - 1)),
        );
        assert(cost == spec_split_cost(elements@, i as int));
        if cost.raw < best_cost.raw {
            best_index = i;
            best_cost = cost;
        }
        i += 1;
    }
    (best_index, best_cost)
}

/// Two sequences with the same elements, each equally often, are equally
/// long, and every element of one occurs in the other.
proof fn lemma_same_elements(a: Seq<SceneElement>, b: Seq<SceneElement>)
    requires
        a.to_multiset() == b.to_multiset(),
    ensures
        a.len() == b.len(),
        forall|i: int| 0 <= i < b.len() ==> a.contains(#[trigger] b[i]),
{
    broadcast use vstd::seq_lib::to_multiset_len;

    a.to_multiset_ensures();
    b.to_multiset_ensures();
    assert forall|i: int| 0 <= i < b.len() implies a.contains(#[trigger] b[i]) by {
        assert(b.contains(b[i]));
        assert(b.to_multiset().count(b[i]) > 0);
    }
}

/// Puts the elements in order along `axis` and finds the cheapest split of
/// that order.
pub fn weigh(elements: &mut Vec<SceneElement>, axis: Axis) -> (r: (usize, Scalar))
    requires
        old(elements).len() >= 2,
    ensures
        spec_ordered(old(elements)@, final(elements)@, axis),
        final(elements).len() == old(elements).len(),
        spec_cheapest(final(elements)@, r.0 as int),
        r.1 == spec_split_cost(final(elements)@, r.0 as int),
        spec_weighed(old(elements)@, axis, r.0 as int, r.1),
{
    let ghost given = elements@;
    sort_by_axis(elements, axis);
    proof {
        lemma_same_elements(given, elements@);
    }
    let r = best_split(elements);
    assert(spec_ordered(given, elements@, axis));
    r
}

/// Puts the elements in the order in which they are to be parted and tells
/// behind which position. The elements are weighed along the three axes in
/// turn; the first split that is cheaper than all before it wins, and the
/// elements are put in order along its axis.
pub fn arrange(elements: &mut Vec<SceneElement>) -> (r: (Axis, usize))
    requires
        old(elements).len() >= 2,
    ensures
        spec_ordered(old(elements)@, final(elements)@, r.0),
        final(elements).len() == old(elements).len(),
        r.1 < final(elements).len() - 1,
        spec_arranged(old(elements)@, r.0, r.1 as int),
{
    let ghost given = elements@;
    let mut best_axis = Axis::X;
    let mut best_index: usize = 0;
    let mut best_cost = Scalar::infinity();

    let (ix, cx) = weigh(elements, Axis::X);
    let ghost by_x = elements@;
    if cx.raw < best_cost.raw {
        best_axis = Axis::X;
        best_index = ix;
        best_cost = cx;
    } else {
        // No split costs more than the largest number, so here all cost the same.
        assert(spec_split_cost(by_x, 0).raw <= i64::MAX);
    }
    let (iy, cy) = weigh(elements, Axis::Y);
    proof {
        lemma_weighed_again(given, by_x, Axis::Y, iy as int, cy);
    }
    let ghost by_y = elements@;
    if cy.raw < best_cost.raw {
        best_axis = Axis::Y;
        best_index = iy;
        best_cost = cy;
    }
    let (iz, cz) = weigh(elements, Axis::Z);
    proof {
        lemma_weighed_again(given, by_y, Axis::Z, iz as int, cz);
    }
    let ghost by_z = elements@;
    if cz.raw < best_cost.raw {
        best_axis = Axis::Z;
        best_index = iz;
    }
    sort_by_axis(elements, best_axis);
    proof {
        reveal(spec_arranged);
        lemma_same_elements(given, elements@);
        assert(spec_weighed(given, Axis::X, ix as int, cx));
        assert(spec_weighed(given, Axis::Y, iy as int, cy));
        assert(spec_weighed(given, Axis::Z, iz as int, cz));
        assert(best_axis == spec_winner(cx, cy, cz));
    }
    (best_axis, best_index)
}

/// What weighing a rearrangement of some elements can give, weighing the
/// elements themselves can give.
proof fn lemma_weighed_again(
    given: Seq<SceneElement>,
    rearranged: Seq<SceneElement>,
    axis: Axis,
    index: int,
    cost: Scalar,
)
    requires
        rearranged.to_multiset() == given.to_multiset(),
        spec_weighed(rearranged, axis, index, cost),
    ensures
        spec_weighed(given, axis, index, cost),
{
    let order = choose|order: Seq<SceneElement>| #[trigger]
        spec_ordered(rearranged, order, axis) && spec_cheapest(order, index) && cost
            == spec_split_cost(order, index);
    assert(spec_ordered(given, order, axis));
}

/// The two parts of a sequence hold what the sequence holds.
proof fn lemma_parts(whole: Seq<SceneElement>, at: int)
    requires
        0 <= at <= whole.len(),
    ensures
        whole.to_multiset() == whole.subrange(0, at).to_multiset().add(
            whole.subrange(at, whole.len() as int).to_multiset(),
        ),
        forall|i: int| 0 <= i < at ==> whole.contains(#[trigger] whole.subrange(0, at)[i]),
        forall|i: int|
            0 <= i < whole.len() - at ==> whole.contains(
                #[trigger] whole.subrange(at, whole.len() as int)[i],
            ),
{
    let left = whole.subrange(0, at);
    let right = whole.subrange(at, whole.len() as int);
    assert(whole =~= left + right);
    vstd::seq_lib::lemma_multiset_commutative(left, right);
    assert forall|i: int| 0 <= i < at implies whole.contains(#[trigger] left[i]) by {
        assert(left[i] == whole[i]);
    }
    assert forall|i: int| 0 <= i < whole.len() - at implies whole.contains(
        #[trigger] right[i],
    ) by {
        assert(right[i] == whole[at + i]);
    }
}

/// What holds of the elements of a hierarchy to be built carries over from
/// the given elements to a hierarchy that was built from them.
pub open spec fn spec_build_keeps(root: SceneElement, given: Seq<SceneElement>) -> bool {
    &&& (forall|i: int| 0 <= i < given.len() ==> (#[trigger] given[i]).wf()) ==> root.wf()
    &&& (forall|i: int| 0 <= i < given.len() ==> (#[trigger] given[i]).spec_is_shape())
        ==> root.spec_shapes().to_multiset() == given.to_multiset()
}

/// A hierarchy built from no element or from one is as promised.
proof fn lemma_built_at_once(root: SceneElement, given: Seq<SceneElement>)
    requires
        given.len() == 0 ==> root is Empty,
        given.len() == 1 ==> root == given[0],
        given.len() <= 1,
    ensures
        spec_built(root, given),
        spec_build_keeps(root, given),
{
    reveal_with_fuel(spec_built, 1);
    if given.len() == 0 {
        assert(root.spec_shapes() =~= given);
    } else if root.spec_is_shape() {
        assert(root.spec_shapes() =~= given);
    }
}

/// A node over the hierarchies built from the two parts of an arrangement
/// is a hierarchy built from the whole.
proof fn lemma_built_from_parts(
    root: SceneElement,
    given: Seq<SceneElement>,
    order: Seq<SceneElement>,
    axis: Axis,
    index: int,
)
    requires
        given.len() >= 2,
        order.len() == given.len(),
        0 <= index < order.len() - 1,
        spec_ordered(given, order, axis),
        spec_arranged(given, axis, index),
        root matches SceneElement::Node(node) && {
            &&& node.hitbox == node.left.spec_hitbox().spec_merge(node.right.spec_hitbox())
            &&& spec_built(*node.left, order.subrange(0, index + 1))
            &&& spec_build_keeps(*node.left, order.subrange(0, index + 1))
            &&& spec_built(*node.right, order.subrange(index + 1, order.len() as int))
            &&& spec_build_keeps(*node.right, order.subrange(index + 1, order.len() as int))
        },
    ensures
        spec_built(root, given),
        spec_build_keeps(root, given),
{
    reveal_with_fuel(spec_built, 1);
    let node = root->Node_0;
    let front = order.subrange(0, index + 1);
    let back = order.subrange(index + 1, order.len() as int);
    lemma_same_elements(given, order);
    lemma_parts(order, index + 1);
    assert forall|i: int| 0 <= i < front.len() implies given.contains(#[trigger] front[i]) by {
        assert(order.contains(front[i]));
    }
    assert forall|i: int| 0 <= i < back.len() implies given.contains(#[trigger] back[i]) by {
        assert(order.contains(back[i]));
    }
    if forall|i: int| 0 <= i < given.len() ==> (#[trigger] given[i]).wf() {
        assert forall|i: int| 0 <= i < front.len() implies (#[trigger] front[i]).wf() by {
            assert(given.contains(front[i]));
        }
        assert forall|i: int| 0 <= i < back.len() implies (#[trigger] back[i]).wf() by {
            assert(given.contains(back[i]));
        }
    }
    if forall|i: int| 0 <= i < given.len() ==> (#[trigger] given[i]).spec_is_shape() {
        assert forall|i: int| 0 <= i < front.len() implies (#[trigger] front[i]).spec_is_shape() by {
            assert(given.contains(front[i]));
        }
        assert forall|i: int| 0 <= i < back.len() implies (#[trigger] back[i]).spec_is_shape() by {
            assert(given.contains(back[i]));
        }
        vstd::seq_lib::lemma_multiset_commutative(
            node.left.spec_shapes(),
            node.right.spec_shapes(),
        );
    }
}

/// Builds the hierarchy of bounding boxes over `elements`: the empty node
/// for no element, the element itself for one, and else a node over the
/// hierarchies of two parts. The parts come from ordering the elements by
/// their box centres, along each axis in turn, and weighing every split of
/// every order by its cost; the elements are then put in order along the
/// axis of the cheapest split and parted at its position.
pub fn build_bvh(elements: Vec<SceneElement>) -> (root: SceneElement)
    ensures
        spec_built(root, elements@),
        elements.len() == 0 ==> root is Empty,
        elements.len() == 1 ==> root == elements[0],
        elements.len() >= 2 ==> root is Node,
        (forall|i: int| 0 <= i < elements.len() ==> (#[trigger] elements[i]).wf()) ==> root.wf(),
        (forall|i: int| 0 <= i < elements.len() ==> (#[trigger] elements[i]).spec_is_shape())
            ==> root.spec_shapes().to_multiset() == elements@.to_multiset(),
    decreases elements.len(),
{
    let mut elements = elements;
    let ghost given = elements@;
    if elements.len() == 0 {
        let empty = SceneElement::Empty(EmptyBVHNode::new());
        proof {
            lemma_built_at_once(empty, given);
        }
        return empty;
    }
    if elements.len() == 1 {
        let only = elements.remove(0);
        proof {
            lemma_built_at_once(only, given);
        }
        return only;
    }
    let (axis, index) = arrange(&mut elements);
    let ghost order = elements@;
    let rest = elements.split_off(index + 1);
    let left = build_bvh(elements);
    let right = build_bvh(rest);
    let root = SceneElement::Node(BVHNode::new(left, right));
    proof {
        lemma_built_from_parts(root, given, order, axis, index as int);
    }
    root
}

impl SceneElement {
    /// The shapes below the element, from left to right.
    pub open spec fn spec_shapes(self) -> Seq<SceneElement>
        decreases self,
    {
        match self {
            SceneElement::Node(node) => node.left.spec_shapes() + node.right.spec_shapes(),
            SceneElement::Empty(_) => Seq::empty(),
            _ => seq![self],
        }
    }

    /// Every shape below the element has a well-formed box, and the box of
    /// every node is exactly the smallest box that holds the boxes of its two
    /// children.
    pub open spec fn wf(self) -> bool
        decreases self,
    {
        match self {
            SceneElement::Sphere(sphere) => sphere.wf(),
            SceneElement::Triangle(triangle) => triangle.wf(),
            SceneElement::Node(node) => {
                &&& node.left.wf()
                &&& node.right.wf()
                &&& node.hitbox == node.left.spec_hitbox().spec_merge(node.right.spec_hitbox())
            },
            SceneElement::Empty(_) => true,
        }
    }

    /// Wherever `ray` collides with a shape below the element, it passes
    /// through the box of that shape no later than at the collision.
    /// Rounding can break this for a ray that grazes the box of a shape.
    pub open spec fn spec_boxes_admit(self, ray: Ray) -> bool
        decreases self,
    {
        match self {
            SceneElement::Node(node) => node.left.spec_boxes_admit(ray)
                && node.right.spec_boxes_admit(ray),
            SceneElement::Empty(_) => true,
            _ => self.spec_collide(ray, Scalar::spec_infinity()) matches Some(info)
                ==> self.spec_hitbox().spec_intersects(ray, info.distance),
        }
    }

    /// Tells whether `ray` passes through the box of every shape below the
    /// element with which it collides no later than at the collision.
    pub fn boxes_admit(&self, ray: &Ray) -> (r: bool)
        ensures
            r == self.spec_boxes_admit(*ray),
        decreases self,
    {
        match self {
            SceneElement::Node(node) => node.left.boxes_admit(ray) && node.right.boxes_admit(ray),
            SceneElement::Empty(_) => true,
            _ => match self.collide(ray, Scalar::infinity()) {
                Some(info) => self.hitbox().intersects(ray, info.distance),
                None => true,
            },
        }
    }
}

/// The nearer of two collisions; the first where both are equally far.
pub open spec fn spec_nearer(first: Option<CollisionInfo>, second: Option<CollisionInfo>) -> Option<
    CollisionInfo,
> {
    match (first, second) {
        (None, _) => second,
        (Some(_), None) => first,
        (Some(a), Some(b)) => if b.distance.raw < a.distance.raw {
            second
        } else {
            first
        },
    }
}

/// The nearest collision of `ray` within `max_distance` that a scan over
/// all of `elements` finds; the earliest element wins among equally near
/// collisions.
pub open spec fn spec_scan(elements: Seq<SceneElement>, ray: Ray, max_distance: Scalar) -> Option<
    CollisionInfo,
>
    decreases elements.len(),
{
    if elements.len() == 0 {
        None
    } else {
        spec_nearer(
            spec_scan(elements.drop_last(), ray, max_distance),
            elements.last().spec_collide(ray, max_distance),
        )
    }
}

/// `hit` is a nearest collision of `ray` with `elements` within
/// `max_distance`: it is the collision with one of them and none of them
/// has a nearer one; or there is no collision at all.
pub open spec fn spec_is_nearest(
    hit: Option<CollisionInfo>,
    elements: Seq<SceneElement>,
    ray: Ray,
    max_distance: Scalar,
) -> bool {
    match hit {
        None => forall|i: int|
            0 <= i < elements.len() ==> (#[trigger] elements[i]).spec_collide(ray, max_distance)
                is None,
        Some(info) => {
            &&& exists|i: int|
                0 <= i < elements.len() && (#[trigger] elements[i]).spec_collide(ray, max_distance)
                    == Some(info)
            &&& forall|i: int|
                0 <= i < elements.len() ==> ((#[trigger] elements[i]).spec_collide(
                    ray,
                    max_distance,
                ) matches Some(other) ==> info.distance.raw <= other.distance.raw)
        },
    }
}

/// Scans all of `elements` for the nearest collision of `ray` within
/// `max_distance`.
pub fn scan(elements: &Vec<SceneElement>, ray: &Ray, max_distance: Scalar) -> (r: Option<
    CollisionInfo,
>)
    ensures
        r == spec_scan(elements@, *ray, max_distance),
        r matches Some(info) ==> 0 < info.distance.raw <= max_distance.raw,
{
    let mut best: Option<CollisionInfo> = None;
    let mut i: usize = 0;
    while i < elements.len()
        invariant
            i <= elements.len(),
            best == spec_scan(elements@.take(i as int), *ray, max_distance),
            best matches Some(info) ==> 0 < info.distance.raw <= max_distance.raw,
        decreases elements.len() - i,
    {
        let found = elements[i].collide(ray, max_distance);
        proof {
            assert(elements@.take(i + 1).drop_last() =~= elements@.take(i as int));
        }
        best =
        match (best, found) {
            (None, _) => found,
            (Some(_), None) => best,
            (Some(a), Some(b)) => if b.distance.raw < a.distance.raw {
                found
            } else {
                best
            },
        };
        i += 1;
    }
    proof {
        assert(elements@.take(i as int) =~= elements@);
    }
    best
}

/// A shape reports a collision only where the ray passes through its box
/// within the search distance, and only within that distance.
proof fn lemma_shape_collision(shape: SceneElement, ray: Ray, max_distance: Scalar)
    requires
        shape.spec_is_shape(),
    ensures
        shape.spec_collide(ray, max_distance) matches Some(info) ==> info.distance.raw
            <= max_distance.raw && shape.spec_hitbox().spec_intersects(ray, max_distance),
{
    reveal_with_fuel(SceneElement::spec_collide, 1);
    reveal(Sphere::spec_collide);
    reveal(Triangle::spec_collide);
}

/// Shortening the search distance takes away the collisions of a shape that
/// lie beyond it and changes no other, provided the box of the shape
/// admits the collision.
proof fn lemma_shape_cutoff(shape: SceneElement, ray: Ray, far: Scalar, near: Scalar)
    requires
        shape.spec_is_shape(),
        shape.spec_boxes_admit(ray),
        near.raw <= far.raw,
    ensures
        shape.spec_collide(ray, near) == (match shape.spec_collide(ray, far) {
            Some(info) => if info.distance.raw <= near.raw {
                Some(info)
            } else {
                None
            },
            None => None,
        }),
{
    reveal_with_fuel(SceneElement::spec_collide, 1);
    reveal(Sphere::spec_collide);
    reveal(Triangle::spec_collide);
    let infinity = Scalar::spec_infinity();
    let b = shape.spec_hitbox();
    if b.spec_intersects(ray, near) {
        lemma_intersects_farther(b, ray, near, far);
    }
    if b.spec_intersects(ray, far) {
        lemma_intersects_farther(b, ray, far, infinity);
    }
    match shape.spec_collide(ray, far) {
        Some(info) => {
            assert(shape.spec_collide(ray, infinity) == Some(info));
            if info.distance.raw <= near.raw {
                lemma_intersects_farther(b, ray, info.distance, near);
            }
        },
        None => {},
    }
}

/// Below a well-formed element, every shape is well formed and lies
/// within the box of the element; and where the boxes below the element
/// admit the collisions of `ray`, so does the box of every shape.
proof fn lemma_shapes_below(root: SceneElement, ray: Ray)
    requires
        root.wf(),
    ensures
        forall|i: int|
            0 <= i < root.spec_shapes().len() ==> {
                let shape = #[trigger] root.spec_shapes()[i];
                &&& shape.spec_is_shape()
                &&& shape.wf()
                &&& root.spec_hitbox().spec_contains(shape.spec_hitbox())
                &&& root.spec_boxes_admit(ray) ==> shape.spec_boxes_admit(ray)
            },
    decreases root,
{
    match root {
        SceneElement::Node(node) => {
            lemma_shapes_below(*node.left, ray);
            lemma_shapes_below(*node.right, ray);
            let left = node.left.spec_shapes();
            let right = node.right.spec_shapes();
            assert forall|i: int| 0 <= i < root.spec_shapes().len() implies {
                let shape = #[trigger] root.spec_shapes()[i];
                &&& shape.spec_is_shape()
                &&& shape.wf()
                &&& root.spec_hitbox().spec_contains(shape.spec_hitbox())
                &&& root.spec_boxes_admit(ray) ==> shape.spec_boxes_admit(ray)
            } by {
                if i < left.len() {
                    assert(root.spec_shapes()[i] == left[i]);
                } else {
                    assert(root.spec_shapes()[i] == right[i - left.len()]);
                }
            }
        },
        _ => {},
    }
}

/// Whatever the traversal finds is a collision of the ray with one of the
/// shapes below the element, searched within some distance up to
/// `max_distance`, and it lies in front of the origin of the ray and within
/// `max_distance`. This holds of every hierarchy and every ray.
pub proof fn lemma_traversal_finds_collisions(root: SceneElement, ray: Ray, max_distance: Scalar)
    ensures
        root.spec_collide(ray, max_distance) matches Some(info) ==> {
            &&& 0 < info.distance.raw <= max_distance.raw
            &&& exists|i: int, reach: Scalar|
                0 <= i < root.spec_shapes().len() && reach.raw <= max_distance.raw && 
                #[trigger] root.spec_shapes()[i].spec_collide(ray, reach) == Some(info)
        },
    decreases root,
{
    reveal_with_fuel(SceneElement::spec_collide, 1);
    reveal(Sphere::spec_collide);
    reveal(Triangle::spec_collide);
    reveal(Sphere::spec_distance);
    reveal(crate::scene::elements::Plane::spec_collide);
    match root {
        SceneElement::Node(node) => {
            let left = node.left.spec_shapes();
            let right = node.right.spec_shapes();
            let all = root.spec_shapes();
            assert forall|i: int| 0 <= i < left.len() implies #[trigger] left[i] == all[i] by {}
            assert forall|i: int| 0 <= i < right.len() implies #[trigger] right[i] == all[left.len()
                + i] by {}
            lemma_traversal_finds_collisions(*node.left, ray, max_distance);
            lemma_traversal_finds_collisions(*node.right, ray, max_distance);
            if let Some(near) = node.left.spec_collide(ray, max_distance) {
                lemma_traversal_finds_collisions(*node.right, ray, near.distance);
            }
            if let Some(near) = node.right.spec_collide(ray, max_distance) {
                lemma_traversal_finds_collisions(*node.left, ray, near.distance);
            }
            if let Some(info) = root.spec_collide(ray, max_distance) {
                if exists|i: int, reach: Scalar|
                    0 <= i < left.len() && reach.raw <= max_distance.raw && 
                    #[trigger] left[i].spec_collide(ray, reach) == Some(info) {
                    let (i, reach) = choose|i: int, reach: Scalar|
                        0 <= i < left.len() && reach.raw <= max_distance.raw && 
                        #[trigger] left[i].spec_collide(ray, reach) == Some(info);
                    assert(all[i].spec_collide(ray, reach) == Some(info));
                } else {
                    let (i, reach) = choose|i: int, reach: Scalar|
                        0 <= i < right.len() && reach.raw <= max_distance.raw && 
                        #[trigger] right[i].spec_collide(ray, reach) == Some(info);
                    assert(all[left.len() + i].spec_collide(ray, reach) == Some(info));
                }
            }
        },
        SceneElement::Empty(_) => {},
        _ => {
            if let Some(info) = root.spec_collide(ray, max_distance) {
                assert(root.spec_shapes()[0].spec_collide(ray, max_distance) == Some(info));
            }
        },
    }
}

/// A collision that a shape reports within some distance it reports within
/// every longer one.
proof fn lemma_shape_reaches(shape: SceneElement, ray: Ray, near: Scalar, far: Scalar)
    requires
        shape.spec_is_shape(),
        near.raw <= far.raw,
    ensures
        shape.spec_collide(ray, near) matches Some(info) ==> shape.spec_collide(ray, far) == Some(
            info,
        ),
{
    reveal_with_fuel(SceneElement::spec_collide, 1);
    reveal(Sphere::spec_collide);
    reveal(Triangle::spec_collide);
    if shape.spec_hitbox().spec_intersects(ray, near) {
        lemma_intersects_farther(shape.spec_hitbox(), ray, near, far);
    }
}

/// The traversal of a well-formed hierarchy invents no collision: whatever
/// it finds within `max_distance` is the collision that one of the shapes
/// below it reports within `max_distance`. This holds of every ray.
pub proof fn lemma_traversal_invents_no_hit(root: SceneElement, ray: Ray, max_distance: Scalar)
    requires
        root.wf(),
    ensures
        root.spec_collide(ray, max_distance) matches Some(info) ==> exists|i: int|
            0 <= i < root.spec_shapes().len() && (#[trigger] root.spec_shapes()[i]).spec_collide(
                ray,
                max_distance,
            ) == Some(info),
{
    if let Some(info) = root.spec_collide(ray, max_distance) {
        lemma_traversal_finds_collisions(root, ray, max_distance);
        lemma_shapes_below(root, ray);
        let (i, reach) = choose|i: int, reach: Scalar|
            0 <= i < root.spec_shapes().len() && reach.raw <= max_distance.raw
                && #[trigger] root.spec_shapes()[i].spec_collide(ray, reach) == Some(info);
        lemma_shape_reaches(root.spec_shapes()[i], ray, reach, max_distance);
        assert(root.spec_shapes()[i].spec_collide(ray, max_distance) == Some(info));
    }
}

/// The traversal of a well-formed hierarchy loses no collision: where it
/// finds nothing within `max_distance`, none of the shapes below it reports
/// a collision within `max_distance`. This holds of every ray.
pub proof fn lemma_traversal_loses_no_hit(root: SceneElement, ray: Ray, max_distance: Scalar)
    requires
        root.wf(),
    ensures
        root.spec_collide(ray, max_distance) is None ==> forall|i: int|
            0 <= i < root.spec_shapes().len() ==> (#[trigger] root.spec_shapes()[i]).spec_collide(
                ray,
                max_distance,
            ) is None,
    decreases root,
{
    reveal_with_fuel(SceneElement::spec_collide, 1);
    match root {
        SceneElement::Node(node) => {
            let left = node.left.spec_shapes();
            let right = node.right.spec_shapes();
            let all = root.spec_shapes();
            if root.spec_collide(ray, max_distance) is None {
                if !node.hitbox.spec_intersects(ray, max_distance) {
                    lemma_shapes_below(root, ray);
                    assert forall|i: int| 0 <= i < all.len() implies (
                    #[trigger] all[i]).spec_collide(ray, max_distance) is None by {
                        let shape = all[i];
                        lemma_shape_collision(shape, ray, max_distance);
                        if shape.spec_hitbox().spec_intersects(ray, max_distance) {
                            lemma_intersects_larger(
                                shape.spec_hitbox(),
                                node.hitbox,
                                ray,
                                max_distance,
                            );
                        }
                    }
                } else {
                    lemma_traversal_loses_no_hit(*node.left, ray, max_distance);
                    lemma_traversal_loses_no_hit(*node.right, ray, max_distance);
                    assert(node.left.spec_collide(ray, max_distance) is None);
                    assert(node.right.spec_collide(ray, max_distance) is None);
                    assert forall|i: int| 0 <= i < all.len() implies (
                    #[trigger] all[i]).spec_collide(ray, max_distance) is None by {
                        if i < left.len() {
                            assert(all[i] == left[i]);
                        } else {
                            assert(all[i] == right[i - left.len()]);
                        }
                    }
                }
            }
        },
        SceneElement::Empty(_) => {},
        _ => {
            assert(root.spec_shapes()[0] == root);
        },
    }
}

/// A hierarchy that holds exactly the given shapes finds a collision
/// exactly where one of the shapes reports one, and what it finds is the
/// collision that one of them reports. This holds of every ray, whatever
/// the order of the shapes and the form of the hierarchy.
pub proof fn lemma_hierarchy_hits_what_is_hit(
    shapes: Seq<SceneElement>,
    root: SceneElement,
    ray: Ray,
    max_distance: Scalar,
)
    requires
        root.wf(),
        root.spec_shapes().to_multiset() == shapes.to_multiset(),
    ensures
        root.spec_collide(ray, max_distance) is None <==> forall|i: int|
            0 <= i < shapes.len() ==> (#[trigger] shapes[i]).spec_collide(ray, max_distance) is None,
        root.spec_collide(ray, max_distance) matches Some(info) ==> exists|i: int|
            0 <= i < shapes.len() && (#[trigger] shapes[i]).spec_collide(ray, max_distance) == Some(
                info,
            ),
{
    let below = root.spec_shapes();
    lemma_same_elements(shapes, below);
    lemma_same_elements(below, shapes);
    lemma_traversal_invents_no_hit(root, ray, max_distance);
    lemma_traversal_loses_no_hit(root, ray, max_distance);
    match root.spec_collide(ray, max_distance) {
        Some(info) => {
            let k = choose|k: int|
                0 <= k < below.len() && (#[trigger] below[k]).spec_collide(ray, max_distance)
                    == Some(info);
            let j = choose|j: int| 0 <= j < shapes.len() && shapes[j] == below[k];
            assert(shapes[j].spec_collide(ray, max_distance) == Some(info));
        },
        None => {
            assert forall|i: int| 0 <= i < shapes.len() implies (
            #[trigger] shapes[i]).spec_collide(ray, max_distance) is None by {
                let j = choose|j: int| 0 <= j < below.len() && below[j] == shapes[i];
                assert(below[j].spec_collide(ray, max_distance) is None);
            }
        },
    }
}

/// Searching one group of shapes and then, within the distance of what
/// was found, a second group finds a nearest collision of both groups.
proof fn lemma_search_in_turn(
    first: Seq<SceneElement>,
    second: Seq<SceneElement>,
    found_first: Option<CollisionInfo>,
    found_second: Option<CollisionInfo>,
    ray: Ray,
    max_distance: Scalar,
)
    requires
        forall|i: int|
            0 <= i < first.len() ==> (#[trigger] first[i]).spec_is_shape(),
        forall|i: int|
            0 <= i < second.len() ==> (#[trigger] second[i]).spec_is_shape() && second[i].spec_boxes_admit(
                ray,
            ),
        spec_is_nearest(found_first, first, ray, max_distance),
        spec_is_nearest(
            found_second,
            second,
            ray,
            match found_first {
                Some(near) => near.distance,
                None => max_distance,
            },
        ),
    ensures
        ({
            let found = match (found_first, found_second) {
                (Some(_), None) => found_first,
                _ => found_second,
            };
            &&& spec_is_nearest(found, first + second, ray, max_distance)
            &&& spec_is_nearest(found, second + first, ray, max_distance)
        }),
{
    let found = match (found_first, found_second) {
        (Some(_), None) => found_first,
        _ => found_second,
    };
    let reach = match found_first {
        Some(near) => near.distance,
        None => max_distance,
    };
    if let Some(near) = found_first {
        let k = choose|k: int|
            0 <= k < first.len() && (#[trigger] first[k]).spec_collide(ray, max_distance) == Some(
                near,
            );
        lemma_shape_collision(first[k], ray, max_distance);
    }
    assert(reach.raw <= max_distance.raw);
    assert forall|i: int| 0 <= i < second.len() implies (#[trigger] second[i]).spec_collide(
        ray,
        reach,
    ) == (match second[i].spec_collide(ray, max_distance) {
        Some(info) => if info.distance.raw <= reach.raw {
            Some(info)
        } else {
            None
        },
        None => None,
    }) by {
        lemma_shape_cutoff(second[i], ray, max_distance, reach);
    }
    let both = first + second;
    let swapped = second + first;
    assert forall|i: int| 0 <= i < both.len() implies (if i < first.len() {
        #[trigger] both[i] == first[i]
    } else {
        both[i] == second[i - first.len()]
    }) by {}
    assert forall|i: int| 0 <= i < swapped.len() implies (if i < second.len() {
        #[trigger] swapped[i] == second[i]
    } else {
        swapped[i] == first[i - second.len()]
    }) by {}
    match found {
        None => {},
        Some(info) => {
            if found_second is Some {
                let k = choose|k: int|
                    0 <= k < second.len() && (#[trigger] second[k]).spec_collide(ray, reach)
                        == Some(info);
                assert(second[k].spec_collide(ray, max_distance) == Some(info));
                assert(both[first.len() + k] == second[k]);
                assert(swapped[k] == second[k]);
            } else {
                let k = choose|k: int|
                    0 <= k < first.len() && (#[trigger] first[k]).spec_collide(ray, max_distance)
                        == Some(info);
                assert(both[k] == first[k]);
                assert(swapped[second.len() + k] == first[k]);
            }
        },
    }
}

/// The traversal of a well-formed hierarchy finds a nearest collision of
/// the ray with the shapes below it, for every ray of whose collisions the
/// boxes of the shapes admit.
pub proof fn lemma_traversal_finds_nearest(root: SceneElement, ray: Ray, max_distance: Scalar)
    requires
        root.wf(),
        root.spec_boxes_admit(ray),
    ensures
        spec_is_nearest(root.spec_collide(ray, max_distance), root.spec_shapes(), ray, max_distance),
    decreases root,
{
    reveal_with_fuel(SceneElement::spec_collide, 1);
    match root {
        SceneElement::Node(node) => {
            let left = node.left.spec_shapes();
            let right = node.right.spec_shapes();
            lemma_shapes_below(root, ray);
            lemma_shapes_below(*node.left, ray);
            lemma_shapes_below(*node.right, ray);
            if !node.hitbox.spec_intersects(ray, max_distance) {
                assert forall|i: int| 0 <= i < root.spec_shapes().len() implies (
                #[trigger] root.spec_shapes()[i]).spec_collide(ray, max_distance) is None by {
                    let shape = root.spec_shapes()[i];
                    lemma_shape_collision(shape, ray, max_distance);
                    if shape.spec_hitbox().spec_intersects(ray, max_distance) {
                        lemma_intersects_larger(
                            shape.spec_hitbox(),
                            node.hitbox,
                            ray,
                            max_distance,
                        );
                    }
                }
            } else if node.spec_left_first(ray) {
                let found_first = node.left.spec_collide(ray, max_distance);
                lemma_traversal_finds_nearest(*node.left, ray, max_distance);
                let reach = match found_first {
                    Some(near) => near.distance,
                    None => max_distance,
                };
                lemma_traversal_finds_nearest(*node.right, ray, reach);
                lemma_search_in_turn(
                    left,
                    right,
                    found_first,
                    node.right.spec_collide(ray, reach),
                    ray,
                    max_distance,
                );
            } else {
                let found_first = node.right.spec_collide(ray, max_distance);
                lemma_traversal_finds_nearest(*node.right, ray, max_distance);
                let reach = match found_first {
                    Some(near) => near.distance,
                    None => max_distance,
                };
                lemma_traversal_finds_nearest(*node.left, ray, reach);
                lemma_search_in_turn(
                    right,
                    left,
                    found_first,
                    node.left.spec_collide(ray, reach),
                    ray,
                    max_distance,
                );
            }
        },
        SceneElement::Empty(_) => {},
        _ => {
            assert(root.spec_shapes()[0] == root);
        },
    }
}

/// A scan finds a nearest collision of the ray with the elements.
pub proof fn lemma_scan_finds_nearest(elements: Seq<SceneElement>, ray: Ray, max_distance: Scalar)
    ensures
        spec_is_nearest(spec_scan(elements, ray, max_distance), elements, ray, max_distance),
    decreases elements.len(),
{
    if elements.len() > 0 {
        let front = elements.drop_last();
        lemma_scan_finds_nearest(front, ray, max_distance);
        let before = spec_scan(front, ray, max_distance);
        let last = elements.last().spec_collide(ray, max_distance);
        let found = spec_scan(elements, ray, max_distance);
        assert forall|i: int| 0 <= i < front.len() implies #[trigger] front[i] == elements[i] by {}
        match found {
            None => {
                assert forall|i: int| 0 <= i < elements.len() implies (
                #[trigger] elements[i]).spec_collide(ray, max_distance) is None by {
                    if i < front.len() {
                        assert(front[i] == elements[i]);
                    }
                }
            },
            Some(info) => {
                if found == last {
                    assert(elements[elements.len() - 1].spec_collide(ray, max_distance) == Some(
                        info,
                    ));
                } else {
                    let k = choose|k: int|
                        0 <= k < front.len() && (#[trigger] front[k]).spec_collide(
                            ray,
                            max_distance,
                        ) == Some(info);
                    assert(elements[k] == front[k]);
                }
                assert forall|i: int| 0 <= i < elements.len() implies ((
                #[trigger] elements[i]).spec_collide(ray, max_distance) matches Some(other)
                    ==> info.distance.raw <= other.distance.raw) by {
                    if i < front.len() {
                        assert(front[i] == elements[i]);
                    }
                }
            },
        }
    }
}

/// Two nearest collisions with the same elements are equally far: both are
/// absent, or both lie at the same distance.
pub proof fn lemma_nearest_agree(
    a: Option<CollisionInfo>,
    b: Option<CollisionInfo>,
    elements: Seq<SceneElement>,
    ray: Ray,
    max_distance: Scalar,
)
    requires
        spec_is_nearest(a, elements, ray, max_distance),
        spec_is_nearest(b, elements, ray, max_distance),
    ensures
        match (a, b) {
            (None, None) => true,
            (Some(x), Some(y)) => x.distance == y.distance,
            _ => false,
        },
{
    if let Some(x) = a {
        let i = choose|i: int|
            0 <= i < elements.len() && (#[trigger] elements[i]).spec_collide(ray, max_distance)
                == Some(x);
        assert(elements[i].spec_collide(ray, max_distance) is Some);
    }
    if let Some(y) = b {
        let j = choose|j: int|
            0 <= j < elements.len() && (#[trigger] elements[j]).spec_collide(ray, max_distance)
                == Some(y);
        assert(elements[j].spec_collide(ray, max_distance) is Some);
    }
}

/// The boxes below an element admit the collisions of a ray exactly when
/// the box of every shape below it does.
pub proof fn lemma_boxes_admit_by_shape(root: SceneElement, ray: Ray)
    ensures
        root.spec_boxes_admit(ray) <==> forall|i: int|
            0 <= i < root.spec_shapes().len() ==> (#[trigger] root.spec_shapes()[i]).spec_boxes_admit(
                ray,
            ),
    decreases root,
{
    match root {
        SceneElement::Node(node) => {
            lemma_boxes_admit_by_shape(*node.left, ray);
            lemma_boxes_admit_by_shape(*node.right, ray);
            let left = node.left.spec_shapes();
            let right = node.right.spec_shapes();
            let all = root.spec_shapes();
            assert forall|i: int| 0 <= i < left.len() implies #[trigger] left[i] == all[i] by {}
            assert forall|i: int| 0 <= i < right.len() implies #[trigger] right[i] == all[left.len()
                + i] by {}
            if root.spec_boxes_admit(ray) {
                assert forall|i: int| 0 <= i < all.len() implies (
                #[trigger] all[i]).spec_boxes_admit(ray) by {
                    if i < left.len() {
                        assert(all[i] == left[i]);
                    } else {
                        assert(all[i] == right[i - left.len()]);
                    }
                }
            }
            if forall|i: int| 0 <= i < all.len() ==> (#[trigger] all[i]).spec_boxes_admit(ray) {
                assert forall|i: int| 0 <= i < left.len() implies (
                #[trigger] left[i]).spec_boxes_admit(ray) by {
                    assert(left[i] == all[i]);
                }
                assert forall|i: int| 0 <= i < right.len() implies (
                #[trigger] right[i]).spec_boxes_admit(ray) by {
                    assert(right[i] == all[left.len() + i]);
                }
            }
        },
        SceneElement::Empty(_) => {},
        _ => {
            assert(root.spec_shapes()[0] == root);
        },
    }
}

/// A nearest collision with some elements is a nearest collision with the
/// same elements in any other order.
pub proof fn lemma_nearest_in_any_order(
    hit: Option<CollisionInfo>,
    a: Seq<SceneElement>,
    b: Seq<SceneElement>,
    ray: Ray,
    max_distance: Scalar,
)
    requires
        spec_is_nearest(hit, a, ray, max_distance),
        a.to_multiset() == b.to_multiset(),
    ensures
        spec_is_nearest(hit, b, ray, max_distance),
{
    lemma_same_elements(a, b);
    lemma_same_elements(b, a);
    assert forall|i: int| 0 <= i < b.len() implies (match hit {
        None => (#[trigger] b[i]).spec_collide(ray, max_distance) is None,
        Some(info) => (b[i].spec_collide(ray, max_distance) matches Some(other)
            ==> info.distance.raw <= other.distance.raw),
    }) by {
        let j = choose|j: int| 0 <= j < a.len() && a[j] == b[i];
        assert(a[j].spec_collide(ray, max_distance) == b[i].spec_collide(ray, max_distance));
    }
    if let Some(info) = hit {
        let k = choose|k: int|
            0 <= k < a.len() && (#[trigger] a[k]).spec_collide(ray, max_distance) == Some(info);
        let j = choose|j: int| 0 <= j < b.len() && b[j] == a[k];
        assert(b[j].spec_collide(ray, max_distance) == Some(info));
    }
}

/// The traversal of a hierarchy that holds exactly the given shapes and a
/// scan over those shapes agree, for every ray of whose collisions the
/// boxes of the shapes admit: both find nothing, or both find a collision
/// at the same distance.
pub proof fn lemma_hierarchy_matches_scan(
    shapes: Seq<SceneElement>,
    root: SceneElement,
    ray: Ray,
    max_distance: Scalar,
)
    requires
        forall|i: int|
            0 <= i < shapes.len() ==> (#[trigger] shapes[i]).spec_is_shape() && shapes[i].wf()
                && shapes[i].spec_boxes_admit(ray),
        root.wf(),
        root.spec_shapes().to_multiset() == shapes.to_multiset(),
    ensures
        match (root.spec_collide(ray, max_distance), spec_scan(shapes, ray, max_distance)) {
            (None, None) => true,
            (Some(found), Some(scanned)) => found.distance == scanned.distance,
            _ => false,
        },
        spec_is_nearest(root.spec_collide(ray, max_distance), shapes, ray, max_distance),
{
    let below = root.spec_shapes();
    lemma_same_elements(shapes, below);
    lemma_boxes_admit_by_shape(root, ray);
    assert forall|i: int| 0 <= i < below.len() implies (#[trigger] below[i]).spec_boxes_admit(
        ray,
    ) by {
        let j = choose|j: int| 0 <= j < shapes.len() && shapes[j] == below[i];
        assert(shapes[j].spec_boxes_admit(ray));
    }
    lemma_traversal_finds_nearest(root, ray, max_distance);
    lemma_nearest_in_any_order(
        root.spec_collide(ray, max_distance),
        below,
        shapes,
        ray,
        max_distance,
    );
    lemma_scan_finds_nearest(shapes, ray, max_distance);
    lemma_nearest_agree(
        root.spec_collide(ray, max_distance),
        spec_scan(shapes, ray, max_distance),
        shapes,
        ray,
        max_distance,
    );
}

/// The traversal of a well-formed hierarchy and a scan over all the shapes
/// below it agree, for every ray of whose collisions the boxes of the
/// shapes admit: both find nothing, or both find a collision at the same
/// distance, which no shape undercuts.
pub proof fn lemma_traversal_matches_scan(root: SceneElement, ray: Ray, max_distance: Scalar)
    requires
        root.wf(),
        root.spec_boxes_admit(ray),
    ensures
        match (
            root.spec_collide(ray, max_distance),
            spec_scan(root.spec_shapes(), ray, max_distance),
        ) {
            (None, None) => true,
            (Some(found), Some(scanned)) => found.distance == scanned.distance,
            _ => false,
        },
        spec_is_nearest(root.spec_collide(ray, max_distance), root.spec_shapes(), ray, max_distance),
{
    lemma_traversal_finds_nearest(root, ray, max_distance);
    lemma_scan_finds_nearest(root.spec_shapes(), ray, max_distance);
    lemma_nearest_agree(
        root.spec_collide(ray, max_distance),
        spec_scan(root.spec_shapes(), ray, max_distance),
        root.spec_shapes(),
        ray,
        max_distance,
    );
}

} // verus!
