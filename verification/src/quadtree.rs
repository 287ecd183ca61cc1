use vstd::prelude::*;

use crate::aabb::AABB;
use crate::vector2::Vector2;

verus! {

/// Why an insert was refused.
#[derive(Debug, Clone, Copy, PartialEq, Eq, Structural)]
pub enum QuadtreeError {
    /// The element's position lies outside the node's boundary.
    OutOfBounds,
    /// Defensive signal for an in-bounds point that no quadrant claims.
    /// The subdivision geometry proves this branch unreachable.
    Unknown,
}

/// How many elements a node keeps in its own bucket before it subdivides.
pub const CAPACITY: usize = 4;

/// The capability an element needs to live in a quadtree: it reports a
/// fixed 2D position.
pub trait Spacial: Sized {
    /// The position the element reports, as the specification sees it.
    spec fn spec_position(&self) -> Vector2;

    fn position(&self) -> (p: &Vector2)
        ensures
            *p == self.spec_position(),
    ;
}

/// A bare point is its own position.
impl Spacial for Vector2 {
    open spec fn spec_position(&self) -> Vector2 {
        *self
    }

    fn position(&self) -> (p: &Vector2) {
        self
    }
}

/// A point carrying a numeric tag; the simplest entity a spatial index
/// can distinguish elements by.
#[derive(Debug, Clone, Copy, PartialEq, Eq, Structural)]
pub struct TaggedPoint {
    pub pos: Vector2,
    pub value: u32,
}

impl Spacial for TaggedPoint {
    open spec fn spec_position(&self) -> Vector2 {
        self.pos
    }

    fn position(&self) -> (p: &Vector2) {
        &self.pos
    }
}

/// `child` is the quadrant of `parent` picked by `east`/`north`: half the
/// parent's extent (odd extents round the child's half up), centered at the
/// offset midpoint of that quadrant.
pub open spec fn is_quadrant(child: AABB, parent: AABB, east: bool, north: bool) -> bool {
    let hx = parent.spec_radius().x / 2;
    let hy = parent.spec_radius().y / 2;
    &&& child.spec_center().x == if east {
        parent.spec_center().x + hx
    } else {
        parent.spec_center().x - hx
    }
    &&& child.spec_center().y == if north {
        parent.spec_center().y + hy
    } else {
        parent.spec_center().y - hy
    }
    &&& child.spec_radius().x == parent.spec_radius().x - hx
    &&& child.spec_radius().y == parent.spec_radius().y - hy
}

/// The four quadrants of a well-formed box cover it completely: every
/// contained point is claimed by at least one quadrant.
pub proof fn lemma_quadrants_cover(
    parent: AABB,
    nw: AABB,
    ne: AABB,
    se: AABB,
    sw: AABB,
    p: Vector2,
)
    requires
        parent.wf(),
        is_quadrant(nw, parent, false, true),
        is_quadrant(ne, parent, true, true),
        is_quadrant(se, parent, true, false),
        is_quadrant(sw, parent, false, false),
        parent.spec_contains(p),
    ensures
        nw.spec_contains(p) || ne.spec_contains(p) || se.spec_contains(p) || sw.spec_contains(p),
{
}

/// Every member of a sequence whose multiset extends another sequence's
/// multiset by one element is either that element or a member of the other
/// sequence.
proof fn lemma_multiset_insert_members<A>(s1: Seq<A>, s2: Seq<A>, x: A)
    requires
        s1.to_multiset() == s2.to_multiset().insert(x),
    ensures
        forall|i: int| 0 <= i < s1.len() ==> (#[trigger] s1[i]) == x || s2.contains(s1[i]),
{
    broadcast use vstd::seq_lib::group_to_multiset_ensures;
    broadcast use vstd::multiset::group_multiset_axioms;

    assert forall|i: int| 0 <= i < s1.len() implies (#[trigger] s1[i]) == x || s2.contains(
        s1[i],
    ) by {
        let y = s1[i];
        assert(s1.contains(y));
        assert(s1.to_multiset().count(y) > 0);
        if y != x {
            assert(s2.to_multiset().count(y) > 0);
        }
    }
}

/// A point-region quadtree over a fixed boundary.
///
/// Each node buckets up to `CAPACITY` elements; the first insert beyond
/// that subdivides the node into four quadrant children, once and forever.
pub struct Quadtree<T: Spacial> {
    boundary: AABB,
    bucket: Vec<T>,
    children: Option<Box<Quadrants<T>>>,
}

/// The four children of an internal node, in the fixed creation order
/// north-west, north-east, south-east, south-west.
struct Quadrants<T: Spacial> {
    nw: Quadtree<T>,
    ne: Quadtree<T>,
    se: Quadtree<T>,
    sw: Quadtree<T>,
}

impl<T: Spacial> Quadtree<T> {
    /// The node's boundary box.
    pub closed spec fn spec_boundary(self) -> AABB {
        self.boundary
    }

    /// The elements in this node's own bucket, in insertion order.
    pub closed spec fn spec_bucket(self) -> Seq<T> {
        self.bucket@
    }

    /// Whether the node has subdivided.
    pub closed spec fn spec_has_children(self) -> bool {
        self.children is Some
    }

    /// Every element stored under this node: the local bucket first, then
    /// the quadrants in creation order.
    pub closed spec fn elems(self) -> Seq<T>
        decreases self,
    {
        match self.children {
            None => self.bucket@,
            Some(q) => self.bucket@ + q.nw.elems() + q.ne.elems() + q.se.elems() + q.sw.elems(),
        }
    }

    /// Structural invariant: the boundary is a proper box, the bucket never
    /// exceeds its capacity and freezes full once the node has subdivided,
    /// every stored element lies in the boundary, and children are exactly
    /// the four quadrants, each well-formed in turn.
    pub closed spec fn wf(self) -> bool
        decreases self,
    {
        &&& self.boundary.wf()
        &&& self.bucket@.len() <= CAPACITY
        &&& (self.children is Some ==> self.bucket@.len() == CAPACITY)
        &&& (forall|i: int|
            0 <= i < self.elems().len() ==> self.boundary.spec_contains(
                (#[trigger] self.elems()[i]).spec_position(),
            ))
        &&& match self.children {
            None => true,
            Some(q) => {
                &&& q.nw.wf()
                &&& q.ne.wf()
                &&& q.se.wf()
                &&& q.sw.wf()
                &&& is_quadrant(q.nw.boundary, self.boundary, false, true)
                &&& is_quadrant(q.ne.boundary, self.boundary, true, true)
                &&& is_quadrant(q.se.boundary, self.boundary, true, false)
                &&& is_quadrant(q.sw.boundary, self.boundary, false, false)
            },
        }
    }

    /// An empty tree over the given boundary.
    pub fn new(boundary: AABB) -> (t: Quadtree<T>)
        requires
            boundary.wf(),
        ensures
            t.wf(),
            t.spec_boundary() == boundary,
            t.elems() == Seq::<T>::empty(),
            t.spec_bucket() == Seq::<T>::empty(),
            !t.spec_has_children(),
    {
        let t = Quadtree { boundary, bucket: Vec::new(), children: None };
        proof {
            assert(t.elems() =~= Seq::<T>::empty());
        }
        t
    }

    /// Whether the node has subdivided into quadrants.
    pub fn has_children(&self) -> (r: bool)
        ensures
            r == self.spec_has_children(),
    {
        self.children.is_some()
    }

    /// Check whether `point` falls inside this node's boundary, the only
    /// condition an insert puts on an element.
    pub fn can_insert(&self, point: &T) -> (r: Result<(), QuadtreeError>)
        requires
            self.wf(),
        ensures
            r is Ok <==> self.spec_boundary().spec_contains(point.spec_position()),
            r is Err ==> r == Err::<(), QuadtreeError>(QuadtreeError::OutOfBounds),
    {
        if !self.boundary.contains(point.position()) {
            Err(QuadtreeError::OutOfBounds)
        } else {
            Ok(())
        }
    }

    /// Split the node into four empty quadrant children. Called exactly
    /// once per node, when its full bucket sees one more insert.
    fn subdivide(&mut self)
        requires
            old(self).wf(),
            old(self).children is None,
            old(self).spec_bucket().len() == CAPACITY,
        ensures
            final(self).wf(),
            final(self).boundary == old(self).boundary,
            final(self).bucket == old(self).bucket,
            final(self).children is Some,
            final(self).elems() == old(self).elems(),
            final(self).children.unwrap().nw.bucket@ == Seq::<T>::empty(),
            final(self).children.unwrap().ne.bucket@ == Seq::<T>::empty(),
            final(self).children.unwrap().se.bucket@ == Seq::<T>::empty(),
            final(self).children.unwrap().sw.bucket@ == Seq::<T>::empty(),
            final(self).children.unwrap().nw.children is None,
            final(self).children.unwrap().ne.children is None,
            final(self).children.unwrap().se.children is None,
            final(self).children.unwrap().sw.children is None,
    {
        let center = self.boundary.get_center().clone();
        let radius = self.boundary.get_radius().clone();
        let hx: i64 = radius.x / 2;
        let hy: i64 = radius.y / 2;
        let child_radius = Vector2 { x: radius.x - hx, y: radius.y - hy };
        let nw = AABB::from_parts(Vector2 { x: center.x - hx, y: center.y + hy }, child_radius);
        let ne = AABB::from_parts(Vector2 { x: center.x + hx, y: center.y + hy }, child_radius);
        let se = AABB::from_parts(Vector2 { x: center.x + hx, y: center.y - hy }, child_radius);
        let sw = AABB::from_parts(Vector2 { x: center.x - hx, y: center.y - hy }, child_radius);
        self.children = Some(
            Box::new(
                Quadrants {
                    nw: Quadtree { boundary: nw, bucket: Vec::new(), children: None },
                    ne: Quadtree { boundary: ne, bucket: Vec::new(), children: None },
                    se: Quadtree { boundary: se, bucket: Vec::new(), children: None },
                    sw: Quadtree { boundary: sw, bucket: Vec::new(), children: None },
                },
            ),
        );
        proof {
            let q = self.children.unwrap();
            assert(q.nw.elems() =~= Seq::<T>::empty());
            assert(q.ne.elems() =~= Seq::<T>::empty());
            assert(q.se.elems() =~= Seq::<T>::empty());
            assert(q.sw.elems() =~= Seq::<T>::empty());
            assert(q.nw.wf());
            assert(q.ne.wf());
            assert(q.se.wf());
            assert(q.sw.wf());
            assert(self.elems() =~= old(self).elems());
        }
    }

    /// Insert one element. Fails with `OutOfBounds`, touching nothing, when
    /// the element's position lies outside this node's boundary; otherwise
    /// the element is stored: in the local bucket while there is room, and
    /// in the claiming quadrant once the bucket is full, subdividing first
    /// if this is the overflowing insert.
    pub fn insert(&mut self, point: T) -> (r: Result<(), QuadtreeError>)
        requires
            old(self).wf(),
        ensures
            final(self).wf(),
            final(self).spec_boundary() == old(self).spec_boundary(),
            r is Ok <==> old(self).spec_boundary().spec_contains(point.spec_position()),
            r is Err ==> r == Err::<(), QuadtreeError>(QuadtreeError::OutOfBounds) && *final(self)
                == *old(self),
            r is Ok ==> final(self).elems().to_multiset() == old(self).elems().to_multiset().insert(
                point,
            ),
            final(self).spec_has_children() == (old(self).spec_has_children() || (r is Ok && old(
                self,
            ).spec_bucket().len() == CAPACITY)),
            r is Ok && old(self).spec_bucket().len() < CAPACITY ==> final(self).spec_bucket()
                == old(self).spec_bucket().push(point),
            old(self).spec_bucket().len() == CAPACITY ==> final(self).spec_bucket() == old(
                self,
            ).spec_bucket(),
        decreases *old(self),
    {
        broadcast use vstd::seq_lib::group_to_multiset_ensures;

        if !self.boundary.contains(point.position()) {
            return Err(QuadtreeError::OutOfBounds);
        }
        if self.bucket.len() < CAPACITY {
            proof {
                assert(old(self).children is None);
                assert(old(self).elems() == old(self).bucket@);
            }
            self.bucket.push(point);
            proof {
                assert(self.elems() =~= old(self).elems().push(point));
                assert(self.elems().to_multiset() == old(self).elems().to_multiset().insert(
                    point,
                ));
                assert forall|i: int| 0 <= i < self.elems().len() implies self
                    .boundary
                    .spec_contains((#[trigger] self.elems()[i]).spec_position()) by {
                    if i < old(self).elems().len() {
                        assert(self.elems()[i] == old(self).elems()[i]);
                    }
                }
            }
            return Ok(());
        }
        let pos: Vector2 = point.position().clone();
        if self.children.is_none() {
            // the overflowing insert: split once, then hand the element to
            // the claiming quadrant, whose fresh bucket takes it directly
            self.subdivide();
            let ghost mid = *self;
            let mut taken = self.children.take();
            let r: Result<(), QuadtreeError>;
            match &mut taken {
                Some(q) => {
                    if q.nw.boundary.contains(&pos) {
                        q.nw.bucket.push(point);
                        proof {
                            lemma_fresh_quadrant_takes(mid.children.unwrap().nw, q.nw, point);
                        }
                        r = Ok(());
                    } else if q.ne.boundary.contains(&pos) {
                        q.ne.bucket.push(point);
                        proof {
                            lemma_fresh_quadrant_takes(mid.children.unwrap().ne, q.ne, point);
                        }
                        r = Ok(());
                    } else if q.se.boundary.contains(&pos) {
                        q.se.bucket.push(point);
                        proof {
                            lemma_fresh_quadrant_takes(mid.children.unwrap().se, q.se, point);
                        }
                        r = Ok(());
                    } else if q.sw.boundary.contains(&pos) {
                        q.sw.bucket.push(point);
                        proof {
                            lemma_fresh_quadrant_takes(mid.children.unwrap().sw, q.sw, point);
                        }
                        r = Ok(());
                    } else {
                        proof {
                            lemma_quadrants_cover(
                                mid.boundary,
                                q.nw.boundary,
                                q.ne.boundary,
                                q.se.boundary,
                                q.sw.boundary,
                                pos,
                            );
                            assert(false);
                        }
                        r = Err(QuadtreeError::Unknown);
                    }
                },
                None => {
                    proof {
                        assert(false);
                    }
                    r = Err(QuadtreeError::Unknown);
                },
            }
            self.children = taken;
            proof {
                lemma_insert_wf_restore(mid, *self, point);
                assert(mid.elems() == old(self).elems());
            }
            r
        } else {
            let ghost mid = *self;
            let mut taken = self.children.take();
            let r: Result<(), QuadtreeError>;
            match &mut taken {
                Some(q) => {
                    if q.nw.boundary.contains(&pos) {
                        r = q.nw.insert(point);
                    } else if q.ne.boundary.contains(&pos) {
                        r = q.ne.insert(point);
                    } else if q.se.boundary.contains(&pos) {
                        r = q.se.insert(point);
                    } else if q.sw.boundary.contains(&pos) {
                        r = q.sw.insert(point);
                    } else {
                        proof {
                            lemma_quadrants_cover(
                                mid.boundary,
                                q.nw.boundary,
                                q.ne.boundary,
                                q.se.boundary,
                                q.sw.boundary,
                                pos,
                            );
                            assert(false);
                        }
                        r = Err(QuadtreeError::Unknown);
                    }
                },
                None => {
                    proof {
                        assert(false);
                    }
                    r = Err(QuadtreeError::Unknown);
                },
            }
            self.children = taken;
            proof {
                lemma_insert_wf_restore(mid, *self, point);
            }
            r
        }
    }

    /// Insert a sequence of elements, stopping at the first failure and
    /// keeping what was inserted before it.
    pub fn insert_many(&mut self, points: Vec<T>) -> (r: Result<(), QuadtreeError>)
        requires
            old(self).wf(),
        ensures
            final(self).wf(),
            final(self).spec_boundary() == old(self).spec_boundary(),
            r is Ok <==> (forall|i: int|
                0 <= i < points@.len() ==> old(self).spec_boundary().spec_contains(
                    (#[trigger] points@[i]).spec_position(),
                )),
            r is Ok ==> final(self).elems().to_multiset() == old(self).elems().to_multiset().add(
                points@.to_multiset(),
            ),
            r is Err ==> r == Err::<(), QuadtreeError>(QuadtreeError::OutOfBounds)
                && (exists|k: int|
                {
                    &&& 0 <= k < points@.len()
                    &&& !old(self).spec_boundary().spec_contains((#[trigger] points@[k]).spec_position())
                    &&& (forall|j: int|
                        0 <= j < k ==> old(self).spec_boundary().spec_contains(
                            (#[trigger] points@[j]).spec_position(),
                        ))
                    &&& final(self).elems().to_multiset() == old(self).elems().to_multiset().add(
                        points@.take(k).to_multiset(),
                    )
                }),
    {
        broadcast use vstd::seq_lib::group_to_multiset_ensures;
        broadcast use vstd::multiset::group_multiset_axioms;

        let mut rest = points;
        let ghost all: Seq<T> = rest@;
        let ghost done: int = 0;
        proof {
            assert(all.take(0) =~= Seq::<T>::empty());
            assert(self.elems().to_multiset() =~= old(self).elems().to_multiset().add(
                all.take(0).to_multiset(),
            ));
        }
        while rest.len() > 0
            invariant
                all == points@,
                self.wf(),
                self.spec_boundary() == old(self).spec_boundary(),
                0 <= done <= all.len(),
                rest@ == all.skip(done),
                forall|j: int|
                    0 <= j < done ==> old(self).spec_boundary().spec_contains(
                        (#[trigger] all[j]).spec_position(),
                    ),
                self.elems().to_multiset() == old(self).elems().to_multiset().add(
                    all.take(done).to_multiset(),
                ),
            decreases rest@.len(),
        {
            let p = rest.remove(0);
            let ghost prev = *self;
            let res = self.insert(p);
            proof {
                assert(p == all[done]);
                assert(all.take(done + 1) =~= all.take(done).push(p));
                vstd::seq_lib::to_multiset_build::<T>(all.take(done), p);
            }
            if let Err(e) = res {
                proof {
                    assert(self.elems().to_multiset() =~= old(self).elems().to_multiset().add(
                        all.take(done).to_multiset(),
                    ));
                    assert(all == points@);
                    assert(0 <= done < points@.len());
                    assert(!old(self).spec_boundary().spec_contains(
                        (points@[done]).spec_position(),
                    ));
                    assert(exists|k: int|
                        {
                            &&& 0 <= k < points@.len()
                            &&& !old(self).spec_boundary().spec_contains(
                                (#[trigger] points@[k]).spec_position(),
                            )
                            &&& (forall|j: int|
                                0 <= j < k ==> old(self).spec_boundary().spec_contains(
                                    (#[trigger] points@[j]).spec_position(),
                                ))
                            &&& self.elems().to_multiset() == old(self).elems().to_multiset().add(
                                points@.take(k).to_multiset(),
                            )
                        }) by {
                        assert(0 <= done < points@.len() && !old(
                            self,
                        ).spec_boundary().spec_contains((points@[done]).spec_position()) && (forall|
                            j: int,
                        |
                            0 <= j < done ==> old(self).spec_boundary().spec_contains(
                                (#[trigger] points@[j]).spec_position(),
                            )) && self.elems().to_multiset() == old(
                            self,
                        ).elems().to_multiset().add(points@.take(done).to_multiset()));
                    }
                }
                return Err(e);
            }
            proof {
                assert(self.elems().to_multiset() =~= old(self).elems().to_multiset().add(
                    all.take(done + 1).to_multiset(),
                ));
                done = done + 1;
                assert(rest@ =~= all.skip(done));
            }
        }
        proof {
            assert(all.take(done) =~= all);
        }
        Ok(())
    }

    /// Append every stored element whose position lies in `range` to
    /// `result`, in traversal order: a node's bucket in insertion order,
    /// then its quadrants. Subtrees whose boundary misses the range are
    /// pruned, which the containment invariant proves lossless.
    pub fn query_range_static<'a>(&'a self, range: &AABB, result: &mut Vec<&'a T>)
        requires
            self.wf(),
            range.wf(),
        ensures
            deref_all(final(result)@) == deref_all(old(result)@) + self.elems().filter(
                query_pred(*range),
            ),
        decreases self,
    {
        if !range.intersects(&self.boundary) {
            proof {
                assert forall|i: int| 0 <= i < self.elems().len() implies !query_pred::<T>(*range)(
                    (#[trigger] self.elems()[i]),
                ) by {
                    if query_pred::<T>(*range)(self.elems()[i]) {
                        crate::aabb::lemma_common_point_intersects(
                            *range,
                            self.boundary,
                            self.elems()[i].spec_position(),
                        );
                    }
                }
                lemma_filter_all_false(self.elems(), query_pred::<T>(*range));
                assert(deref_all(result@) =~= deref_all(old(result)@) + self.elems().filter(
                    query_pred(*range),
                ));
            }
            return;
        }
        let ghost entry: Seq<&'a T> = result@;
        let n: usize = self.bucket.len();
        for i in 0..n
            invariant
                self.wf(),
                range.wf(),
                n == self.bucket@.len(),
                deref_all(result@) == deref_all(entry) + self.bucket@.take(i as int).filter(
                    query_pred(*range),
                ),
        {
            proof {
                assert(self.bucket@.take(i + 1) =~= self.bucket@.take(i as int).push(
                    self.bucket@[i as int],
                ));
                lemma_filter_push(
                    self.bucket@.take(i as int),
                    self.bucket@[i as int],
                    query_pred::<T>(*range),
                );
            }
            let p = &self.bucket[i];
            if range.contains(p.position()) {
                let ghost before: Seq<&'a T> = result@;
                result.push(p);
                proof {
                    assert(deref_all(result@) =~= deref_all(before).push(*p));
                    assert(deref_all(result@) =~= deref_all(entry) + self.bucket@.take(
                        i + 1,
                    ).filter(query_pred(*range)));
                }
            } else {
                proof {
                    assert(deref_all(result@) =~= deref_all(entry) + self.bucket@.take(
                        i + 1,
                    ).filter(query_pred(*range)));
                }
            }
        }
        proof {
            assert(self.bucket@.take(n as int) =~= self.bucket@);
        }
        match &self.children {
            None => {
                proof {
                    assert(self.elems() == self.bucket@);
                }
            },
            Some(q) => {
                q.nw.query_range_static(range, result);
                q.ne.query_range_static(range, result);
                q.se.query_range_static(range, result);
                q.sw.query_range_static(range, result);
                proof {
                    let pred = query_pred::<T>(*range);
                    let b = self.bucket@;
                    Seq::filter_distributes_over_add(b, q.nw.elems(), pred);
                    Seq::filter_distributes_over_add(b + q.nw.elems(), q.ne.elems(), pred);
                    Seq::filter_distributes_over_add(
                        b + q.nw.elems() + q.ne.elems(),
                        q.se.elems(),
                        pred,
                    );
                    Seq::filter_distributes_over_add(
                        b + q.nw.elems() + q.ne.elems() + q.se.elems(),
                        q.sw.elems(),
                        pred,
                    );
                    assert(deref_all(result@) =~= deref_all(entry) + self.elems().filter(pred));
                }
            },
        }
    }

    /// All stored elements whose position lies in `range`, newly collected.
    pub fn query_range<'a>(&'a self, range: AABB) -> (result: Vec<&'a T>)
        requires
            self.wf(),
            range.wf(),
        ensures
            deref_all(result@) == self.elems().filter(query_pred(range)),
    {
        let mut result: Vec<&'a T> = Vec::new();
        self.query_range_static(&range, &mut result);
        proof {
            assert(deref_all(result@) =~= self.elems().filter(query_pred(range)));
        }
        result
    }
}

/// One quadrant took the element: it stayed on its boundary, remains
/// well-formed, and its contents grew by exactly that element.
spec fn quadrant_advanced<T: Spacial>(c0: Quadtree<T>, c1: Quadtree<T>, x: T) -> bool {
    &&& c1.wf()
    &&& c1.boundary == c0.boundary
    &&& c1.elems().to_multiset() == c0.elems().to_multiset().insert(x)
}

/// Exactly one of the four quadrants advanced by taking `x`; the rest are
/// untouched.
spec fn one_quadrant_advanced<T: Spacial>(a: Box<Quadrants<T>>, b: Box<Quadrants<T>>, x: T) -> bool {
    ||| (quadrant_advanced(a.nw, b.nw, x) && b.ne == a.ne && b.se == a.se && b.sw == a.sw)
    ||| (quadrant_advanced(a.ne, b.ne, x) && b.nw == a.nw && b.se == a.se && b.sw == a.sw)
    ||| (quadrant_advanced(a.se, b.se, x) && b.nw == a.nw && b.ne == a.ne && b.sw == a.sw)
    ||| (quadrant_advanced(a.sw, b.sw, x) && b.nw == a.nw && b.ne == a.ne && b.se == a.se)
}

/// A fresh, empty quadrant that pushed `x` into its bucket advanced by
/// exactly `x`.
proof fn lemma_fresh_quadrant_takes<T: Spacial>(c0: Quadtree<T>, c1: Quadtree<T>, x: T)
    requires
        c0.wf(),
        c0.bucket@ == Seq::<T>::empty(),
        c0.children is None,
        c1.boundary == c0.boundary,
        c1.children is None,
        c1.bucket@ == c0.bucket@.push(x),
        c0.boundary.spec_contains(x.spec_position()),
    ensures
        quadrant_advanced(c0, c1, x),
{
    broadcast use vstd::seq_lib::group_to_multiset_ensures;

    assert(c0.elems() == c0.bucket@);
    assert(c1.elems() == c1.bucket@);
    assert(c1.elems().to_multiset() == c0.elems().to_multiset().insert(x));
    assert forall|i: int| 0 <= i < c1.elems().len() implies c1.boundary.spec_contains(
        (#[trigger] c1.elems()[i]).spec_position(),
    ) by {
        assert(c1.elems()[i] == x);
    }
    assert(c1.wf());
}

/// The predicate a range query matches elements against: the element's
/// position lies inside the query range.
pub open spec fn query_pred<T: Spacial>(range: AABB) -> spec_fn(T) -> bool {
    |e: T| range.spec_contains(e.spec_position())
}

/// The elements behind a sequence of references.
pub open spec fn deref_all<T>(s: Seq<&T>) -> Seq<T> {
    s.map_values(|t: &T| *t)
}

/// Appending one element extends a filtered sequence by that element
/// exactly when the predicate holds of it.
proof fn lemma_filter_push<A>(s: Seq<A>, x: A, pred: spec_fn(A) -> bool)
    ensures
        s.push(x).filter(pred) == s.filter(pred) + (if pred(x) {
            seq![x]
        } else {
            Seq::<A>::empty()
        }),
{
    reveal(Seq::filter);
    assert(s.push(x).drop_last() =~= s);
    if pred(x) {
        assert(s.push(x).filter(pred) =~= s.filter(pred) + seq![x]);
    } else {
        assert(s.push(x).filter(pred) =~= s.filter(pred) + Seq::<A>::empty());
    }
}

/// Filtering with a predicate that holds nowhere gives the empty sequence.
proof fn lemma_filter_all_false<A>(s: Seq<A>, pred: spec_fn(A) -> bool)
    requires
        forall|i: int| 0 <= i < s.len() ==> !pred(#[trigger] s[i]),
    ensures
        s.filter(pred) == Seq::<A>::empty(),
    decreases s.len(),
{
    reveal(Seq::filter);
    if s.len() == 0 {
        assert(s.filter(pred) =~= Seq::<A>::empty());
    } else {
        lemma_filter_all_false(s.drop_last(), pred);
        assert(!pred(s.last()));
    }
}

/// Rebuilding a node around one advanced quadrant keeps it well-formed and
/// grows its contents by exactly the inserted element.
proof fn lemma_insert_wf_restore<T: Spacial>(mid: Quadtree<T>, post: Quadtree<T>, x: T)
    requires
        mid.wf(),
        mid.children is Some,
        post.children is Some,
        post.boundary == mid.boundary,
        post.bucket == mid.bucket,
        mid.boundary.spec_contains(x.spec_position()),
        one_quadrant_advanced(mid.children.unwrap(), post.children.unwrap(), x),
    ensures
        post.wf(),
        post.elems().to_multiset() == mid.elems().to_multiset().insert(x),
{
    broadcast use vstd::seq_lib::group_to_multiset_ensures;
    broadcast use vstd::seq_lib::lemma_multiset_commutative;
    broadcast use vstd::multiset::group_multiset_axioms;

    let a = mid.children.unwrap();
    let b = post.children.unwrap();
    assert(mid.elems() == mid.bucket@ + a.nw.elems() + a.ne.elems() + a.se.elems() + a.sw.elems());
    assert(post.elems() == post.bucket@ + b.nw.elems() + b.ne.elems() + b.se.elems()
        + b.sw.elems());
    assert(post.elems().to_multiset() =~= mid.elems().to_multiset().insert(x));
    lemma_multiset_insert_members(post.elems(), mid.elems(), x);
    assert forall|i: int| 0 <= i < post.elems().len() implies post.boundary.spec_contains(
        (#[trigger] post.elems()[i]).spec_position(),
    ) by {
        if post.elems()[i] != x {
            let j = choose|j: int| 0 <= j < mid.elems().len() && mid.elems()[j] == post.elems()[i];
            assert(mid.boundary.spec_contains(mid.elems()[j].spec_position()));
        }
    }
    assert(post.wf());
}

/// The index's central guarantee: a well-formed tree stores only elements
/// whose position lies inside its boundary, and a range query's result
/// keeps every stored element whose position the range contains.
pub proof fn lemma_query_finds<T: Spacial>(t: Quadtree<T>, range: AABB, e: T)
    requires
        t.wf(),
        t.elems().contains(e),
        range.spec_contains(e.spec_position()),
    ensures
        t.spec_boundary().spec_contains(e.spec_position()),
        t.elems().filter(query_pred(range)).contains(e),
{
    broadcast use vstd::seq_lib::group_filter_ensures;

    let i = choose|i: int| 0 <= i < t.elems().len() && t.elems()[i] == e;
    assert(t.spec_boundary().spec_contains(t.elems()[i].spec_position()));
    assert(query_pred::<T>(range)(t.elems()[i]));
    t.elems().lemma_filter_contains(query_pred(range), i);
}

} // verus!
