//! The octant splitter: distributes the points of one node into up to eight
//! child buckets, and the threshold rule that decides which children the
//! split phase recurses into.

use vstd::prelude::*;
use crate::LEAF_THRESHOLD;
use crate::UPDATE_COUNT;
use crate::bbox::BoundingBox;
use crate::bbox::spec_child_box;
use crate::bbox::spec_child_index;
use crate::bbox::get_child_index;
use crate::bbox::child_bounding_box;
use crate::names::spec_child_name;
use crate::names::child_node_name;
use crate::point::Point;
use crate::progress::SendingProgressReporter;

verus! {

/// Octant of a point inside a box.
pub open spec fn point_octant(b: BoundingBox, p: Point) -> int {
    spec_child_index(b, p.position.x as int, p.position.y as int, p.position.z as int)
}

/// The points of `pts` that fall into octant `i` of `b`, in input order.
pub open spec fn octant_points(b: BoundingBox, pts: Seq<Point>, i: int) -> Seq<Point>
    decreases pts.len(),
{
    if pts.len() == 0 {
        Seq::empty()
    } else {
        let head = octant_points(b, pts.drop_last(), i);
        if point_octant(b, pts.last()) == i {
            head.push(pts.last())
        } else {
            head
        }
    }
}

/// The octant indices below `n`, in ascending order, whose bucket is
/// nonempty.
pub open spec fn nonempty_octants_upto(b: BoundingBox, pts: Seq<Point>, n: int) -> Seq<int>
    decreases n,
{
    if n <= 0 {
        Seq::empty()
    } else {
        let head = nonempty_octants_upto(b, pts, n - 1);
        if octant_points(b, pts, n - 1).len() > 0 {
            head.push(n - 1)
        } else {
            head
        }
    }
}

/// The octant indices, in ascending order, whose bucket is nonempty.
pub open spec fn nonempty_octants(b: BoundingBox, pts: Seq<Point>) -> Seq<int> {
    nonempty_octants_upto(b, pts, 8)
}

/// An octant holds no more points than went in.
pub proof fn lemma_octant_points_len(b: BoundingBox, pts: Seq<Point>, i: int)
    ensures
        octant_points(b, pts, i).len() <= pts.len(),
    decreases pts.len(),
{
    if pts.len() > 0 {
        lemma_octant_points_len(b, pts.drop_last(), i);
    }
}

/// Law: partition correctness. Every point of an octant bucket has that
/// octant as its child index.
pub proof fn lemma_octant_points_members(b: BoundingBox, pts: Seq<Point>, i: int)
    ensures
        forall|k: int|
            0 <= k < octant_points(b, pts, i).len() ==> point_octant(
                b,
                #[trigger] octant_points(b, pts, i)[k],
            ) == i,
    decreases pts.len(),
{
    if pts.len() > 0 {
        lemma_octant_points_members(b, pts.drop_last(), i);
        let head = octant_points(b, pts.drop_last(), i);
        let whole = octant_points(b, pts, i);
        assert forall|k: int| 0 <= k < whole.len() implies point_octant(b, whole[k]) == i by {
            if k < head.len() {
                assert(whole[k] == head[k]);
            } else {
                assert(whole[k] == pts.last());
            }
        }
    }
}

/// Law: every point lands in exactly one octant, so the eight buckets
/// conserve the input count.
pub proof fn lemma_octant_conservation(b: BoundingBox, pts: Seq<Point>)
    ensures
        octant_points(b, pts, 0).len() + octant_points(b, pts, 1).len() + octant_points(
            b,
            pts,
            2,
        ).len() + octant_points(b, pts, 3).len() + octant_points(b, pts, 4).len() + octant_points(
            b,
            pts,
            5,
        ).len() + octant_points(b, pts, 6).len() + octant_points(b, pts, 7).len() == pts.len(),
    decreases pts.len(),
{
    if pts.len() > 0 {
        lemma_octant_conservation(b, pts.drop_last());
        assert(0 <= point_octant(b, pts.last()) < 8);
    }
}

/// Descriptor of one child written by a split: its name, its cubic bounding
/// box, and how many points its file holds.
pub struct SplittedNode {
    pub name: String,
    pub bounding_box: BoundingBox,
    pub num_points: i64,
}

/// Splits the points of node `name` into the eight octants of
/// `bounding_box`.
///
/// Returns the descriptors of the children that received at least one point,
/// in ascending octant order, and the eight buckets themselves, so that the
/// caller can write each nonempty bucket to the child's file. Progress is
/// reported once per `UPDATE_COUNT` points and finished at the end.
pub fn split(
    name: &str,
    bounding_box: &BoundingBox,
    points: &Vec<Point>,
    progress: Option<SendingProgressReporter>,
) -> (r: (Vec<SplittedNode>, Vec<Vec<Point>>))
    requires
        bounding_box.valid(),
        points@.len() <= i64::MAX,
        progress is Some ==> progress->0.wf(),
    ensures
        r.1@.len() == 8,
        forall|i: int| 0 <= i < 8 ==> #[trigger] r.1@[i]@ == octant_points(
            *bounding_box,
            points@,
            i,
        ),
        r.0@.len() == nonempty_octants(*bounding_box, points@).len(),
        forall|j: int|
            0 <= j < r.0@.len() ==> {
                let i = nonempty_octants(*bounding_box, points@)[j];
                &&& (#[trigger] r.0@[j]).name@ == spec_child_name(name@, i)
                &&& r.0@[j].bounding_box == spec_child_box(*bounding_box, i)
                &&& r.0@[j].num_points == octant_points(*bounding_box, points@, i).len()
                &&& r.0@[j].num_points >= 1
            },
        octant_points(*bounding_box, points@, 0).len() + octant_points(
            *bounding_box,
            points@,
            1,
        ).len() + octant_points(*bounding_box, points@, 2).len() + octant_points(
            *bounding_box,
            points@,
            3,
        ).len() + octant_points(*bounding_box, points@, 4).len() + octant_points(
            *bounding_box,
            points@,
            5,
        ).len() + octant_points(*bounding_box, points@, 6).len() + octant_points(
            *bounding_box,
            points@,
            7,
        ).len() == points@.len(),
        forall|i: int, k: int|
            0 <= i < 8 && 0 <= k < octant_points(*bounding_box, points@, i).len()
                ==> point_octant(
                *bounding_box,
                #[trigger] octant_points(*bounding_box, points@, i)[k],
            ) == i,
{
    let mut b0: Vec<Point> = Vec::new();
    let mut b1: Vec<Point> = Vec::new();
    let mut b2: Vec<Point> = Vec::new();
    let mut b3: Vec<Point> = Vec::new();
    let mut b4: Vec<Point> = Vec::new();
    let mut b5: Vec<Point> = Vec::new();
    let mut b6: Vec<Point> = Vec::new();
    let mut b7: Vec<Point> = Vec::new();
    let mut progress = progress;
    let mut num_point: usize = 0;
    proof {
        assert(points@.subrange(0, 0) =~= Seq::<Point>::empty());
    }
    while num_point < points.len()
        invariant
            num_point <= points@.len() <= i64::MAX,
            bounding_box.valid(),
            progress is Some ==> progress->0.wf(),
            b0@ == octant_points(*bounding_box, points@.subrange(0, num_point as int), 0),
            b1@ == octant_points(*bounding_box, points@.subrange(0, num_point as int), 1),
            b2@ == octant_points(*bounding_box, points@.subrange(0, num_point as int), 2),
            b3@ == octant_points(*bounding_box, points@.subrange(0, num_point as int), 3),
            b4@ == octant_points(*bounding_box, points@.subrange(0, num_point as int), 4),
            b5@ == octant_points(*bounding_box, points@.subrange(0, num_point as int), 5),
            b6@ == octant_points(*bounding_box, points@.subrange(0, num_point as int), 6),
            b7@ == octant_points(*bounding_box, points@.subrange(0, num_point as int), 7),
        decreases points@.len() - num_point,
    {
        if num_point % (UPDATE_COUNT as usize) == 0 {
            progress = match progress {
                Some(mut rep) => {
                    rep.add(UPDATE_COUNT as u64);
                    Some(rep)
                },
                None => None,
            };
        }
        let p = points[num_point];
        let child_index = get_child_index(bounding_box, &p.position);
        if child_index == 0 {
            b0.push(p);
        } else if child_index == 1 {
            b1.push(p);
        } else if child_index == 2 {
            b2.push(p);
        } else if child_index == 3 {
            b3.push(p);
        } else if child_index == 4 {
            b4.push(p);
        } else if child_index == 5 {
            b5.push(p);
        } else if child_index == 6 {
            b6.push(p);
        } else {
            b7.push(p);
        }
        proof {
            let pre = points@.subrange(0, num_point as int);
            let post = points@.subrange(0, num_point as int + 1);
            assert(post.drop_last() =~= pre);
            assert(post.last() == points@[num_point as int]);
        }
        num_point = num_point + 1;
    }
    proof {
        assert(points@.subrange(0, points@.len() as int) =~= points@);
    }
    let mut buckets: Vec<Vec<Point>> = Vec::new();
    buckets.push(b0);
    buckets.push(b1);
    buckets.push(b2);
    buckets.push(b3);
    buckets.push(b4);
    buckets.push(b5);
    buckets.push(b6);
    buckets.push(b7);
    let mut descriptors: Vec<SplittedNode> = Vec::new();
    let mut i: usize = 0;
    while i < 8
        invariant
            i <= 8,
            bounding_box.valid(),
            points@.len() <= i64::MAX,
            buckets@.len() == 8,
            forall|k: int| 0 <= k < 8 ==> #[trigger] buckets@[k]@ == octant_points(
                *bounding_box,
                points@,
                k,
            ),
            descriptors@.len() == nonempty_octants_upto(*bounding_box, points@, i as int).len(),
            forall|j: int|
                0 <= j < descriptors@.len() ==> {
                    let oc = nonempty_octants_upto(*bounding_box, points@, i as int)[j];
                    &&& (#[trigger] descriptors@[j]).name@ == spec_child_name(name@, oc)
                    &&& descriptors@[j].bounding_box == spec_child_box(*bounding_box, oc)
                    &&& descriptors@[j].num_points == octant_points(
                        *bounding_box,
                        points@,
                        oc,
                    ).len()
                    &&& descriptors@[j].num_points >= 1
                },
        decreases 8 - i,
    {
        proof {
            lemma_octant_points_len(*bounding_box, points@, i as int);
        }
        if buckets[i].len() > 0 {
            let child_name = child_node_name(name, i as u8);
            let child_box = child_bounding_box(bounding_box, i as u8);
            let count = buckets[i].len() as i64;
            descriptors.push(
                SplittedNode { name: child_name, bounding_box: child_box, num_points: count },
            );
        }
        i = i + 1;
    }
    proof {
        lemma_octant_conservation(*bounding_box, points@);
        assert forall|oc: int, k: int|
            0 <= oc < 8 && 0 <= k < octant_points(*bounding_box, points@, oc).len()
            implies point_octant(
            *bounding_box,
            #[trigger] octant_points(*bounding_box, points@, oc)[k],
        ) == oc by {
            lemma_octant_points_members(*bounding_box, points@, oc);
        }
    }
    match progress {
        Some(rep) => rep.finish(),
        None => {},
    }
    (descriptors, buckets)
}

/// The children of a split that stay leaves: fewer points than the
/// threshold.
pub open spec fn leaf_children(s: Seq<SplittedNode>) -> Seq<SplittedNode>
    decreases s.len(),
{
    if s.len() == 0 {
        Seq::empty()
    } else {
        let head = leaf_children(s.drop_last());
        if s.last().num_points < LEAF_THRESHOLD {
            head.push(s.last())
        } else {
            head
        }
    }
}

/// The children of a split that must be split further: at or above the
/// threshold.
pub open spec fn oversized_children(s: Seq<SplittedNode>) -> Seq<SplittedNode>
    decreases s.len(),
{
    if s.len() == 0 {
        Seq::empty()
    } else {
        let head = oversized_children(s.drop_last());
        if s.last().num_points >= LEAF_THRESHOLD {
            head.push(s.last())
        } else {
            head
        }
    }
}

/// The split phase's leaf rule: children below the threshold become leaves,
/// the rest are split further. Returns `(leaves, to_split)`, each keeping
/// the input order.
pub fn partition_by_threshold(children: Vec<SplittedNode>) -> (r: (
    Vec<SplittedNode>,
    Vec<SplittedNode>,
))
    ensures
        r.0@ == leaf_children(children@),
        r.1@ == oversized_children(children@),
{
    let mut rest = children;
    let mut leaves: Vec<SplittedNode> = Vec::new();
    let mut to_split: Vec<SplittedNode> = Vec::new();
    let ghost orig = rest@;
    let total = rest.len();
    proof {
        assert(orig.len() == total);
        assert(orig.subrange(0, 0) =~= Seq::<SplittedNode>::empty());
    }
    let mut i: usize = 0;
    while rest.len() > 0
        invariant
            i <= orig.len() == total,
            rest@ == orig.subrange(i as int, orig.len() as int),
            leaves@ == leaf_children(orig.subrange(0, i as int)),
            to_split@ == oversized_children(orig.subrange(0, i as int)),
        decreases rest@.len(),
    {
        let node = rest.remove(0);
        proof {
            let pre = orig.subrange(0, i as int);
            let post = orig.subrange(0, i as int + 1);
            assert(post.drop_last() =~= pre);
            assert(post.last() == orig[i as int]);
            assert(rest@ =~= orig.subrange(i as int + 1, orig.len() as int));
        }
        if node.num_points < LEAF_THRESHOLD {
            leaves.push(node);
        } else {
            to_split.push(node);
        }
        i = i + 1;
    }
    proof {
        assert(orig.subrange(0, orig.len() as int) =~= orig);
        assert(i == orig.len());
    }
    (leaves, to_split)
}

} // verus!
