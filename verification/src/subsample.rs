//! The level-synchronous subsampler: an interior node is built by moving
//! every eighth point of each child file into the parent and writing the
//! rest back to the child; and the plan that walks the tree from the leaves
//! to the root, one level at a time.

use vstd::prelude::*;
use vstd::arithmetic::div_mod::lemma_fundamental_div_mod_converse;
use crate::names::wf_name;
use crate::names::spec_parent_name;
use crate::names::parent_node_name;
use crate::point::Point;

verus! {

/// The points a child hands up to its parent: those at indices divisible by
/// eight, in read order.
pub open spec fn sample_of(pts: Seq<Point>) -> Seq<Point> {
    Seq::new(((pts.len() + 7) / 8) as nat, |j: int| pts[8 * j])
}

/// The points a child keeps: those at indices not divisible by eight, in
/// read order.
pub open spec fn remainder_of(pts: Seq<Point>) -> Seq<Point> {
    Seq::new(
        (pts.len() - (pts.len() + 7) / 8) as nat,
        |j: int| pts[8 * (j / 7) + (j % 7) + 1],
    )
}

/// Law: conservation under subsampling. Sample and remainder split a child
/// without loss, the sample holds exactly one point per started block of
/// eight, and a nonempty child always hands at least one point up.
pub proof fn lemma_decimation_conservation(pts: Seq<Point>)
    ensures
        sample_of(pts).len() + remainder_of(pts).len() == pts.len(),
        sample_of(pts).len() == (pts.len() + 7) / 8,
        pts.len() > 0 ==> sample_of(pts).len() >= 1,
{
}

/// Splits `points` into its decimation sample and remainder: index order is
/// kept, indices `0, 8, 16, ...` go to the first vector, all others to the
/// second.
pub fn decimate(points: &Vec<Point>) -> (r: (Vec<Point>, Vec<Point>))
    ensures
        r.0@ == sample_of(points@),
        r.1@ == remainder_of(points@),
        r.0@.len() + r.1@.len() == points@.len(),
        points@.len() > 0 ==> r.0@.len() >= 1,
{
    let mut parent: Vec<Point> = Vec::new();
    let mut rest: Vec<Point> = Vec::new();
    let mut idx: usize = 0;
    while idx < points.len()
        invariant
            idx <= points@.len(),
            parent@.len() == (idx + 7) / 8,
            forall|j: int| 0 <= j < parent@.len() ==> #[trigger] parent@[j] == points@[8 * j],
            rest@.len() == idx - (idx + 7) / 8,
            forall|j: int| 0 <= j < rest@.len() ==> #[trigger] rest@[j] == points@[
                8 * (j / 7) + (j % 7) + 1
            ],
        decreases points@.len() - idx,
    {
        let ghost q = idx as int / 8;
        let ghost rr = idx as int % 8;
        let p = points[idx];
        if idx % 8 == 0 {
            proof {
                lemma_fundamental_div_mod_converse(idx as int + 7, 8, q, 7);
                lemma_fundamental_div_mod_converse(idx as int + 8, 8, q + 1, 0);
            }
            parent.push(p);
        } else {
            proof {
                lemma_fundamental_div_mod_converse(idx as int + 7, 8, q + 1, rr - 1);
                lemma_fundamental_div_mod_converse(idx as int + 8, 8, q + 1, rr);
                let l = idx as int - (idx as int + 7) / 8;
                lemma_fundamental_div_mod_converse(l, 7, q, rr - 1);
            }
            rest.push(p);
        }
        idx = idx + 1;
    }
    proof {
        assert(parent@ =~= sample_of(points@));
        assert(rest@ =~= remainder_of(points@));
    }
    (parent, rest)
}

/// What a child slot holds: its points, or nothing where no file exists.
pub open spec fn child_points(c: Option<Vec<Point>>) -> Seq<Point> {
    match c {
        Some(v) => v@,
        None => Seq::empty(),
    }
}

/// The parent's new content after consuming the first `n` child slots: the
/// samples of the present children, concatenated in child order.
pub open spec fn parent_sample_upto(cs: Seq<Option<Vec<Point>>>, n: int) -> Seq<Point>
    decreases n,
{
    if n <= 0 {
        Seq::empty()
    } else {
        parent_sample_upto(cs, n - 1) + sample_of(child_points(cs[n - 1]))
    }
}

/// Builds one interior node from its eight child slots.
///
/// Each present child is decimated: its sample is appended to the parent's
/// points, in child order, and the child keeps its remainder. Absent
/// children stay absent. The caller writes the parent's points to the
/// parent's file and rewrites each present child's file, dropping any that
/// became empty.
pub fn subsample_children(children: Vec<Option<Vec<Point>>>) -> (r: (
    Vec<Point>,
    Vec<Option<Vec<Point>>>,
))
    requires
        children@.len() == 8,
    ensures
        r.0@ == parent_sample_upto(children@, 8),
        r.1@.len() == 8,
        forall|i: int|
            0 <= i < 8 ==> (children@[i] is Some <==> #[trigger] r.1@[i] is Some),
        forall|i: int|
            0 <= i < 8 && children@[i] is Some ==> (#[trigger] r.1@[i])->0@ == remainder_of(
                child_points(children@[i]),
            ),
{
    let mut rest = children;
    let ghost orig = rest@;
    let mut parent: Vec<Point> = Vec::new();
    let mut new_children: Vec<Option<Vec<Point>>> = Vec::new();
    let mut i: usize = 0;
    while i < 8
        invariant
            i <= 8,
            orig.len() == 8,
            rest@ == orig.subrange(i as int, 8),
            parent@ == parent_sample_upto(orig, i as int),
            new_children@.len() == i,
            forall|k: int|
                0 <= k < i ==> (orig[k] is Some <==> #[trigger] new_children@[k] is Some),
            forall|k: int|
                0 <= k < i && orig[k] is Some ==> (#[trigger] new_children@[k])->0@
                    == remainder_of(child_points(orig[k])),
        decreases 8 - i,
    {
        let c = rest.remove(0);
        proof {
            assert(rest@ =~= orig.subrange(i as int + 1, 8));
            assert(orig.subrange(i as int, 8)[0] == orig[i as int]);
        }
        match c {
            Some(pts) => {
                let (mut sample, keep) = decimate(&pts);
                parent.append(&mut sample);
                new_children.push(Some(keep));
            },
            None => {
                new_children.push(None);
                proof {
                    assert(parent@ =~= parent_sample_upto(orig, i as int + 1));
                }
            },
        }
        i = i + 1;
    }
    (parent, new_children)
}

/// The character sequences of a vector of names.
pub open spec fn names_view(v: Seq<String>) -> Seq<Seq<char>> {
    Seq::new(v.len(), |k: int| v[k]@)
}

/// The character sequences of a vector of rounds.
pub open spec fn rounds_view(v: Seq<Vec<String>>) -> Seq<Seq<Seq<char>>> {
    Seq::new(v.len(), |r: int| names_view(v[r]@))
}

/// A name occurs in a list of names.
pub open spec fn contains_name(names: Seq<Seq<char>>, n: Seq<char>) -> bool {
    exists|k: int| 0 <= k < names.len() && names[k] == n
}

/// A name occurs in some round.
pub open spec fn in_rounds(rounds: Seq<Seq<Seq<char>>>, n: Seq<char>) -> bool {
    exists|r: int| 0 <= r < rounds.len() && contains_name(#[trigger] rounds[r], n)
}

/// `m` is the parent of a name that is an input leaf or was itself emitted
/// by the plan.
pub open spec fn parent_of_known(
    leaves: Seq<Seq<char>>,
    rounds: Seq<Seq<Seq<char>>>,
    m: Seq<char>,
) -> bool {
    exists|n: Seq<char>|
        (contains_name(leaves, n) || in_rounds(rounds, n)) && n.len() >= 2 && m
            == spec_parent_name(n)
}

/// Soundness of a plan: every emitted name is the parent of an input leaf
/// or of an earlier emitted name.
#[verifier::opaque]
pub open spec fn plan_sound(leaves: Seq<Seq<char>>, rounds: Seq<Seq<Seq<char>>>) -> bool {
    forall|r: int, j: int|
        0 <= r < rounds.len() && 0 <= j < rounds[r].len() ==> parent_of_known(
            leaves,
            rounds,
            #[trigger] rounds[r][j],
        )
}

/// Completeness of a plan: every input leaf or emitted name of depth at
/// least one has its parent emitted too; climbing therefore reaches the
/// root.
#[verifier::opaque]
pub open spec fn plan_complete(leaves: Seq<Seq<char>>, rounds: Seq<Seq<Seq<char>>>) -> bool {
    forall|n: Seq<char>|
        (contains_name(leaves, n) || in_rounds(rounds, n)) && n.len() >= 2 ==> in_rounds(
            rounds,
            #[trigger] spec_parent_name(n),
        )
}

/// One well-formed subsampling round: a nonempty batch of well-formed,
/// pairwise distinct names of one common length.
pub open spec fn round_ok(round: Seq<Seq<char>>) -> bool {
    &&& round.len() > 0
    &&& forall|j: int| 0 <= j < round.len() ==> wf_name(#[trigger] round[j])
    &&& forall|j1: int, j2: int|
        0 <= j1 < j2 < round.len() ==> round[j1] != round[j2]
    &&& forall|j: int| 0 <= j < round.len() ==> (#[trigger] round[j]).len() == round[0].len()
}

/// A well-formed plan: every round well formed, and the common name length
/// strictly decreasing from round to round, so each level of the tree is
/// finished before the one above it starts.
pub open spec fn rounds_ok(rounds: Seq<Seq<Seq<char>>>) -> bool {
    &&& forall|r: int| 0 <= r < rounds.len() ==> round_ok(#[trigger] rounds[r])
    &&& forall|r1: int, r2: int|
        0 <= r1 < r2 < rounds.len() ==> rounds[r1][0].len() > rounds[r2][0].len()
}

/// Length of the longest name in a list; zero for an empty list.
pub open spec fn max_name_len(names: Seq<Seq<char>>) -> int
    decreases names.len(),
{
    if names.len() == 0 {
        0
    } else {
        let m = max_name_len(names.drop_last());
        if names.last().len() > m {
            names.last().len() as int
        } else {
            m
        }
    }
}

proof fn lemma_max_name_len_bounds(names: Seq<Seq<char>>)
    ensures
        max_name_len(names) >= 0,
        forall|k: int| 0 <= k < names.len() ==> (#[trigger] names[k]).len() <= max_name_len(names),
        names.len() > 0 ==> exists|k: int|
            0 <= k < names.len() && (#[trigger] names[k]).len() == max_name_len(names),
    decreases names.len(),
{
    if names.len() > 0 {
        lemma_max_name_len_bounds(names.drop_last());
        let m = max_name_len(names);
        assert forall|k: int| 0 <= k < names.len() implies (#[trigger] names[k]).len() <= m by {
            if k < names.len() - 1 {
                assert(names.drop_last()[k] == names[k]);
            }
        }
        if names.len() > 1 && names.last().len() <= max_name_len(names.drop_last()) {
            let k0 = choose|k: int|
                0 <= k < names.drop_last().len() && (#[trigger] names.drop_last()[k]).len()
                    == max_name_len(names.drop_last());
            assert(names[k0].len() == m);
        }
    }
}

proof fn lemma_max_name_len_le(names: Seq<Seq<char>>, b: int)
    requires
        b >= 0,
        forall|k: int| 0 <= k < names.len() ==> (#[trigger] names[k]).len() <= b,
    ensures
        max_name_len(names) <= b,
    decreases names.len(),
{
    if names.len() > 0 {
        assert forall|k: int|
            0 <= k < names.drop_last().len() implies (#[trigger] names.drop_last()[k]).len()
            <= b by {
            assert(names.drop_last()[k] == names[k]);
        }
        lemma_max_name_len_le(names.drop_last(), b);
    }
}

/// The parent of a well-formed name of depth at least one is well formed
/// and one character shorter.
pub proof fn lemma_parent_wf(n: Seq<char>)
    requires
        wf_name(n),
        n.len() >= 2,
    ensures
        wf_name(spec_parent_name(n)),
        spec_parent_name(n).len() == n.len() - 1,
{
}


/// One climb step of the plan preserves its invariants: the new round is
/// well formed and deeper rounds stay deeper, every emitted name is a
/// parent of a known name, every known name of depth at least one either
/// has its parent emitted or is still pending, and the pending maximal
/// length strictly shrinks.
proof fn lemma_plan_step(
    leaves0: Seq<Seq<char>>,
    rounds0: Seq<Seq<Seq<char>>>,
    rounds1: Seq<Seq<Seq<char>>>,
    cur0: Seq<Seq<char>>,
    same_v: Seq<Seq<char>>,
    rest_v: Seq<Seq<char>>,
    parents_v: Seq<Seq<char>>,
    sources: Seq<Seq<char>>,
    rsrc0: Seq<Seq<Seq<char>>>,
    rsrc1: Seq<Seq<Seq<char>>>,
    cur1: Seq<Seq<char>>,
    ml: int,
)
    requires
        cur0.len() > 0,
        ml == max_name_len(cur0),
        forall|k: int| 0 <= k < cur0.len() ==> wf_name(#[trigger] cur0[k]),
        forall|k: int|
            0 <= k < cur0.len() ==> contains_name(same_v, #[trigger] cur0[k]) || contains_name(
                rest_v,
                cur0[k],
            ),
        forall|j: int| 0 <= j < same_v.len() ==> (#[trigger] same_v[j]).len() == ml && wf_name(
            same_v[j],
        ) && (contains_name(leaves0, same_v[j]) || in_rounds(rounds0, same_v[j])),
        forall|j: int| 0 <= j < rest_v.len() ==> (#[trigger] rest_v[j]).len() < ml && wf_name(
            rest_v[j],
        ) && (contains_name(leaves0, rest_v[j]) || in_rounds(rounds0, rest_v[j])),
        forall|q: int| 0 <= q < parents_v.len() ==> (#[trigger] parents_v[q]).len() == ml - 1
            && wf_name(parents_v[q]),
        forall|q1: int, q2: int|
            0 <= q1 < q2 < parents_v.len() ==> parents_v[q1] != parents_v[q2],
        sources.len() == parents_v.len(),
        forall|q: int|
            0 <= q < parents_v.len() ==> (contains_name(leaves0, #[trigger] sources[q])
                || in_rounds(rounds0, sources[q])) && sources[q].len() >= 2 && parents_v[q]
                == spec_parent_name(sources[q]),
        forall|q: int|
            0 <= q < same_v.len() && (#[trigger] same_v[q]).len() >= 2 ==> contains_name(
                parents_v,
                spec_parent_name(same_v[q]),
            ),
        parents_v.len() > 0 ==> rounds1 == rounds0.push(parents_v) && rsrc1 == rsrc0.push(sources)
            && cur1 == rest_v + parents_v,
        parents_v.len() == 0 ==> rounds1 == rounds0 && rsrc1 == rsrc0 && cur1 == rest_v,
        rounds_ok(rounds0),
        rounds0.len() > 0 ==> ml <= rounds0[rounds0.len() - 1][0].len(),
        rsrc0.len() == rounds0.len(),
        forall|r: int| 0 <= r < rounds0.len() ==> (#[trigger] rsrc0[r]).len() == rounds0[r].len(),
        forall|r: int, j: int|
            0 <= r < rounds0.len() && 0 <= j < rounds0[r].len() ==> (contains_name(
                leaves0,
                #[trigger] rsrc0[r][j],
            ) || in_rounds(rounds0, rsrc0[r][j])) && rsrc0[r][j].len() >= 2 && rounds0[r][j]
                == spec_parent_name(rsrc0[r][j]),
        forall|n: Seq<char>|
            (contains_name(leaves0, n) || in_rounds(rounds0, n)) && n.len() >= 2 ==> in_rounds(
                rounds0,
                #[trigger] spec_parent_name(n),
            ) || contains_name(cur0, n),
    ensures
        rounds_ok(rounds1),
        rounds1.len() > 0 ==> max_name_len(cur1) <= rounds1[rounds1.len() - 1][0].len(),
        forall|k: int| 0 <= k < cur1.len() ==> wf_name(#[trigger] cur1[k]),
        forall|k: int|
            0 <= k < cur1.len() ==> contains_name(leaves0, #[trigger] cur1[k]) || in_rounds(
                rounds1,
                cur1[k],
            ),
        rsrc1.len() == rounds1.len(),
        forall|r: int| 0 <= r < rounds1.len() ==> (#[trigger] rsrc1[r]).len() == rounds1[r].len(),
        forall|r: int, j: int|
            0 <= r < rounds1.len() && 0 <= j < rounds1[r].len() ==> (contains_name(
                leaves0,
                #[trigger] rsrc1[r][j],
            ) || in_rounds(rounds1, rsrc1[r][j])) && rsrc1[r][j].len() >= 2 && rounds1[r][j]
                == spec_parent_name(rsrc1[r][j]),
        forall|n: Seq<char>|
            (contains_name(leaves0, n) || in_rounds(rounds1, n)) && n.len() >= 2 ==> in_rounds(
                rounds1,
                #[trigger] spec_parent_name(n),
            ) || contains_name(cur1, n),
        max_name_len(cur1) < ml,
{
    lemma_max_name_len_bounds(cur0);
    let kml = choose|k: int| 0 <= k < cur0.len() && (#[trigger] cur0[k]).len() == ml;
    assert(wf_name(cur0[kml]));
    assert(ml >= 1);
    // in_rounds is monotone under pushing one more round.
    assert forall|n: Seq<char>| in_rounds(rounds0, n) implies in_rounds(rounds1, n) by {
        let r = choose|r: int| 0 <= r < rounds0.len() && contains_name(#[trigger] rounds0[r], n);
        assert(rounds1[r] == rounds0[r]);
        assert(contains_name(rounds1[r], n));
    }
    if parents_v.len() > 0 {
        assert(ml >= 2) by {
            assert(parents_v[0].len() == ml - 1);
            assert(wf_name(parents_v[0]));
        }
        // The new round is well formed.
        assert(round_ok(parents_v));
        assert forall|r1: int, r2: int|
            0 <= r1 < r2 < rounds1.len() implies rounds1[r1][0].len() > rounds1[r2][0].len() by {
            if r2 < rounds0.len() {
                assert(rounds1[r1] == rounds0[r1] && rounds1[r2] == rounds0[r2]);
            } else {
                assert(rounds1[r2] == parents_v);
                assert(rounds1[r1] == rounds0[r1]);
                assert(rounds0[r1][0].len() >= rounds0[rounds0.len() - 1][0].len());
                assert(rounds0[r1][0].len() >= ml);
            }
        }
        assert(rounds_ok(rounds1));
        // Everything pending is a rest name or a freshly emitted parent.
        assert forall|k: int| 0 <= k < cur1.len() implies wf_name(#[trigger] cur1[k])
            && (contains_name(leaves0, cur1[k]) || in_rounds(rounds1, cur1[k]))
            && cur1[k].len() <= ml - 1 by {
            if k < rest_v.len() {
                assert(cur1[k] == rest_v[k]);
            } else {
                assert(cur1[k] == parents_v[k - rest_v.len()]);
                assert(contains_name(parents_v, cur1[k]));
                assert(in_rounds(rounds1, cur1[k])) by {
                    assert(rounds1[rounds1.len() - 1] == parents_v);
                }
            }
        }
        lemma_max_name_len_le(cur1, ml - 1);
        assert(rounds1[rounds1.len() - 1][0].len() == ml - 1);
        // Soundness of every emitted name.
        assert forall|r: int, j: int|
            0 <= r < rounds1.len() && 0 <= j < rounds1[r].len() implies (contains_name(
            leaves0,
            #[trigger] rsrc1[r][j],
        ) || in_rounds(rounds1, rsrc1[r][j])) && rsrc1[r][j].len() >= 2 && rounds1[r][j]
            == spec_parent_name(rsrc1[r][j]) by {
            if r < rounds0.len() {
                assert(rounds1[r] == rounds0[r] && rsrc1[r] == rsrc0[r]);
            } else {
                assert(rounds1[r] == parents_v && rsrc1[r] == sources);
            }
        }
        // Every known deep name has its parent emitted or is still pending.
        assert forall|n: Seq<char>|
            (contains_name(leaves0, n) || in_rounds(rounds1, n)) && n.len() >= 2 implies in_rounds(
            rounds1,
            #[trigger] spec_parent_name(n),
        ) || contains_name(cur1, n) by {
            if in_rounds(rounds1, n) && !in_rounds(rounds0, n) {
                // n is one of the parents just emitted: it is pending now.
                let r = choose|r: int|
                    0 <= r < rounds1.len() && contains_name(#[trigger] rounds1[r], n);
                if r < rounds0.len() {
                    assert(in_rounds(rounds0, n));
                } else {
                    let q = choose|q: int| 0 <= q < parents_v.len() && parents_v[q] == n;
                    assert(cur1[rest_v.len() + q] == n);
                    assert(contains_name(cur1, n));
                }
            } else {
                assert(contains_name(leaves0, n) || in_rounds(rounds0, n));
                if in_rounds(rounds0, spec_parent_name(n)) {
                    assert(in_rounds(rounds1, spec_parent_name(n)));
                } else {
                    assert(contains_name(cur0, n));
                    let k = choose|k: int| 0 <= k < cur0.len() && cur0[k] == n;
                    if contains_name(rest_v, n) {
                        let w = choose|w: int| 0 <= w < rest_v.len() && rest_v[w] == n;
                        assert(cur1[w] == n);
                        assert(contains_name(cur1, n));
                    } else {
                        assert(contains_name(same_v, n));
                        let w = choose|w: int| 0 <= w < same_v.len() && same_v[w] == n;
                        assert(contains_name(parents_v, spec_parent_name(n)));
                        assert(in_rounds(rounds1, spec_parent_name(n))) by {
                            assert(rounds1[rounds1.len() - 1] == parents_v);
                        }
                    }
                }
            }
        }
    } else {
        // No name of maximal length was deep enough to have a parent: the
        // maximal length is one, so nothing shorter is pending either.
        assert(contains_name(same_v, cur0[kml]) || contains_name(rest_v, cur0[kml]));
        if contains_name(rest_v, cur0[kml]) {
            let w = choose|w: int| 0 <= w < rest_v.len() && rest_v[w] == cur0[kml];
            assert(false);
        }
        let w = choose|w: int| 0 <= w < same_v.len() && same_v[w] == cur0[kml];
        assert(ml == 1) by {
            if same_v[w].len() >= 2 {
                assert(contains_name(parents_v, spec_parent_name(same_v[w])));
                let q = choose|q: int|
                    0 <= q < parents_v.len() && parents_v[q] == spec_parent_name(same_v[w]);
                assert(false);
            }
        }
        assert(cur1.len() == 0) by {
            if cur1.len() > 0 {
                assert(rest_v[0].len() < 1);
                assert(wf_name(rest_v[0]));
                assert(false);
            }
        }
        assert(max_name_len(cur1) == 0);
        // Deep names known before are unchanged; pending names of depth one
        // or more would have had length at least two, which the maximal
        // length rules out.
        assert forall|n: Seq<char>|
            (contains_name(leaves0, n) || in_rounds(rounds1, n)) && n.len() >= 2 implies in_rounds(
            rounds1,
            #[trigger] spec_parent_name(n),
        ) || contains_name(cur1, n) by {
            if !in_rounds(rounds0, spec_parent_name(n)) {
                assert(contains_name(cur0, n));
                let k = choose|k: int| 0 <= k < cur0.len() && cur0[k] == n;
                assert(cur0[k].len() <= ml);
                assert(false);
            }
        }
    }
}


/// Law: the plan climbs all the way up. Every proper ancestor of every
/// input leaf, the root included, is built by some round of a sound and
/// complete plan.
pub proof fn lemma_plan_reaches_ancestors(
    leaves: Seq<Seq<char>>,
    rounds: Seq<Seq<Seq<char>>>,
    a: Seq<char>,
    n: Seq<char>,
)
    requires
        plan_complete(leaves, rounds),
        contains_name(leaves, n) || in_rounds(rounds, n),
        1 <= a.len() < n.len(),
        a == n.subrange(0, a.len() as int),
    ensures
        in_rounds(rounds, a),
    decreases n.len(),
{
    reveal(plan_complete);
    let p = spec_parent_name(n);
    assert(in_rounds(rounds, p));
    if a.len() == n.len() - 1 {
        assert(a =~= p);
    } else {
        assert(a =~= p.subrange(0, a.len() as int));
        lemma_plan_reaches_ancestors(leaves, rounds, a, p);
    }
}

/// Builds the subsampling plan from the split phase's leaf names.
///
/// Each returned round is the set of parents to build next: the distinct
/// parents of the currently deepest names. A built parent then counts as a
/// name to climb from, so rounds walk level by level up to the root. The
/// caller runs the rounds in order; the names inside one round touch
/// disjoint files and may run in parallel.
#[verifier::rlimit(100)]
pub fn subsample_plan(leaf_nodes: Vec<String>) -> (rounds: Vec<Vec<String>>)
    requires
        forall|k: int| 0 <= k < leaf_nodes@.len() ==> wf_name((#[trigger] leaf_nodes@[k])@),
    ensures
        rounds_ok(rounds_view(rounds@)),
        plan_sound(names_view(leaf_nodes@), rounds_view(rounds@)),
        plan_complete(names_view(leaf_nodes@), rounds_view(rounds@)),
{
    let ghost leaves0 = names_view(leaf_nodes@);
    let mut current: Vec<String> = Vec::new();
    let mut ci: usize = 0;
    while ci < leaf_nodes.len()
        invariant
            ci <= leaf_nodes@.len(),
            leaves0 == names_view(leaf_nodes@),
            names_view(current@) == leaves0.subrange(0, ci as int),
        decreases leaf_nodes@.len() - ci,
    {
        let ghost cpre = names_view(current@);
        let cl = leaf_nodes[ci].clone();
        current.push(cl);
        proof {
            assert(names_view(current@) =~= cpre.push(leaves0[ci as int]));
            assert(names_view(current@) =~= leaves0.subrange(0, ci as int + 1));
        }
        ci = ci + 1;
    }
    proof {
        assert(leaves0.subrange(0, leaves0.len() as int) =~= leaves0);
    }
    let mut rounds: Vec<Vec<String>> = Vec::new();
    let ghost mut round_sources: Seq<Seq<Seq<char>>> = Seq::empty();
    proof {
        assert forall|k: int| 0 <= k < current@.len() implies wf_name((#[trigger] current@[k])@)
            && contains_name(leaves0, current@[k]@) by {
            assert(current@[k]@ == names_view(current@)[k]);
            assert(leaves0[k] == leaf_nodes@[k]@);
        }
    }
    while current.len() > 0
        invariant
            forall|k: int| 0 <= k < current@.len() ==> wf_name((#[trigger] current@[k])@),
            rounds_ok(rounds_view(rounds@)),
            rounds@.len() > 0 ==> max_name_len(names_view(current@)) <= rounds_view(
                rounds@,
            )[rounds@.len() - 1][0].len(),
            forall|k: int|
                0 <= k < current@.len() ==> contains_name(leaves0, (#[trigger] current@[k])@)
                    || in_rounds(rounds_view(rounds@), current@[k]@),
            round_sources.len() == rounds@.len(),
            forall|r: int| 0 <= r < rounds@.len() ==> (#[trigger] round_sources[r]).len()
                == rounds_view(rounds@)[r].len(),
            forall|r: int, j: int|
                0 <= r < rounds@.len() && 0 <= j < rounds@[r]@.len() ==> (contains_name(
                    leaves0,
                    #[trigger] round_sources[r][j],
                ) || in_rounds(rounds_view(rounds@), round_sources[r][j]))
                    && round_sources[r][j].len() >= 2 && rounds_view(rounds@)[r][j]
                    == spec_parent_name(round_sources[r][j]),
            forall|n: Seq<char>|
                (contains_name(leaves0, n) || in_rounds(rounds_view(rounds@), n)) && n.len() >= 2
                    ==> in_rounds(rounds_view(rounds@), #[trigger] spec_parent_name(n))
                    || contains_name(names_view(current@), n),
        decreases max_name_len(names_view(current@)),
    {
        let ghost cur0 = names_view(current@);
        let ghost rounds0 = rounds_view(rounds@);
        let ghost old_round_sources = round_sources;
        proof {
            lemma_max_name_len_bounds(cur0);
            assert forall|k: int| 0 <= k < cur0.len() implies wf_name(#[trigger] cur0[k]) && (
            contains_name(leaves0, cur0[k]) || in_rounds(rounds0, cur0[k])) by {
                assert(cur0[k] == current@[k]@);
            }
        }
        let ghost ml_spec = max_name_len(cur0);
        // Longest name still pending.
        let mut ml: usize = 0;
        let mut k: usize = 0;
        while k < current.len()
            invariant
                k <= current@.len(),
                cur0 == names_view(current@),
                ml as int == max_name_len(cur0.subrange(0, k as int)),
            decreases current@.len() - k,
        {
            proof {
                let pre = cur0.subrange(0, k as int);
                let post = cur0.subrange(0, k as int + 1);
                assert(post.drop_last() =~= pre);
                assert(post.last() == current@[k as int]@);
            }
            let l = current[k].as_str().unicode_len();
            if l > ml {
                ml = l;
            }
            k = k + 1;
        }
        proof {
            assert(cur0.subrange(0, cur0.len() as int) =~= cur0);
            assert(ml as int == ml_spec);
        }
        // Partition off the names of maximal length.
        let mut same: Vec<String> = Vec::new();
        let mut rest: Vec<String> = Vec::new();
        let mut i: usize = 0;
        while i < current.len()
            invariant
                i <= current@.len(),
                cur0 == names_view(current@),
                ml as int == ml_spec,
                ml_spec == max_name_len(cur0),
                forall|j: int| 0 <= j < same@.len() ==> ((#[trigger] same@[j])@).len() == ml
                    && contains_name(cur0, same@[j]@),
                forall|j: int| 0 <= j < rest@.len() ==> ((#[trigger] rest@[j])@).len() < ml
                    && contains_name(cur0, rest@[j]@),
                forall|k2: int|
                    0 <= k2 < i ==> contains_name(names_view(same@), #[trigger] cur0[k2])
                        || contains_name(names_view(rest@), cur0[k2]),
            decreases current@.len() - i,
        {
            let n = current[i].clone();
            proof {
                assert(n@ == cur0[i as int]);
                lemma_max_name_len_bounds(cur0);
            }
            let ghost same_pre = names_view(same@);
            let ghost rest_pre = names_view(rest@);
            if n.as_str().unicode_len() == ml {
                same.push(n);
                proof {
                    assert(names_view(same@) =~= same_pre.push(cur0[i as int]));
                    assert(names_view(same@)[same_pre.len() as int] == cur0[i as int]);
                    assert forall|k2: int|
                        0 <= k2 < i + 1 implies contains_name(
                        names_view(same@),
                        #[trigger] cur0[k2],
                    ) || contains_name(names_view(rest@), cur0[k2]) by {
                        if k2 < i && contains_name(same_pre, cur0[k2]) {
                            let w = choose|w: int|
                                0 <= w < same_pre.len() && same_pre[w] == cur0[k2];
                            assert(names_view(same@)[w] == cur0[k2]);
                        }
                    }
                }
            } else {
                rest.push(n);
                proof {
                    assert(names_view(rest@) =~= rest_pre.push(cur0[i as int]));
                    assert(names_view(rest@)[rest_pre.len() as int] == cur0[i as int]);
                    assert forall|k2: int|
                        0 <= k2 < i + 1 implies contains_name(
                        names_view(same@),
                        #[trigger] cur0[k2],
                    ) || contains_name(names_view(rest@), cur0[k2]) by {
                        if k2 < i && contains_name(rest_pre, cur0[k2]) {
                            let w = choose|w: int|
                                0 <= w < rest_pre.len() && rest_pre[w] == cur0[k2];
                            assert(names_view(rest@)[w] == cur0[k2]);
                        }
                    }
                }
            }
            i = i + 1;
        }
        // Distinct parents of the deepest names.
        let mut parents: Vec<String> = Vec::new();
        let ghost mut sources: Seq<Seq<char>> = Seq::empty();
        let mut j: usize = 0;
        while j < same.len()
            invariant
                j <= same@.len(),
                ml as int == ml_spec,
                forall|k2: int| 0 <= k2 < cur0.len() ==> wf_name(#[trigger] cur0[k2]) && (
                contains_name(leaves0, cur0[k2]) || in_rounds(rounds0, cur0[k2])),
                forall|q: int| 0 <= q < same@.len() ==> ((#[trigger] same@[q])@).len() == ml
                    && contains_name(cur0, same@[q]@),
                forall|q: int| 0 <= q < parents@.len() ==> ((#[trigger] parents@[q])@).len() == ml
                    - 1 && wf_name(parents@[q]@),
                forall|q1: int, q2: int|
                    0 <= q1 < q2 < parents@.len() ==> parents@[q1]@ != parents@[q2]@,
                sources.len() == parents@.len(),
                forall|q: int|
                    0 <= q < parents@.len() ==> (contains_name(leaves0, #[trigger] sources[q])
                        || in_rounds(rounds0, sources[q])) && sources[q].len() >= 2
                        && parents@[q]@ == spec_parent_name(sources[q]),
                forall|q: int|
                    0 <= q < j && ((#[trigger] same@[q])@).len() >= 2 ==> contains_name(
                        names_view(parents@),
                        spec_parent_name(same@[q]@),
                    ),
            decreases same@.len() - j,
        {
            let ghost parents_pre = names_view(parents@);
            let ghost nj = same@[j as int]@;
            proof {
                let w = choose|w: int| 0 <= w < cur0.len() && cur0[w] == nj;
                assert(wf_name(nj) && (contains_name(leaves0, nj) || in_rounds(rounds0, nj)));
            }
            if same[j].as_str().unicode_len() > 1 {
                let p = parent_node_name(same[j].as_str());
                proof {
                    lemma_parent_wf(nj);
                }
                let mut found = false;
                let mut q: usize = 0;
                while q < parents.len()
                    invariant
                        q <= parents@.len(),
                        p@ == spec_parent_name(nj),
                        found <==> exists|w: int| 0 <= w < q && (#[trigger] parents@[w])@ == p@,
                    decreases parents@.len() - q,
                {
                    if parents[q] == p {
                        found = true;
                        proof {
                            assert(0 <= q < q + 1 && parents@[q as int]@ == p@);
                        }
                    }
                    q = q + 1;
                }
                if !found {
                    let ghost old_parents = parents@;
                    let ghost old_sources = sources;
                    parents.push(p);
                    proof {
                        sources = sources.push(nj);
                        assert(names_view(parents@) =~= parents_pre.push(spec_parent_name(nj)));
                        assert(names_view(parents@)[parents_pre.len() as int]
                            == spec_parent_name(nj));
                        assert forall|q2: int|
                            0 <= q2 < parents@.len() implies (contains_name(
                            leaves0,
                            #[trigger] sources[q2],
                        ) || in_rounds(rounds0, sources[q2])) && sources[q2].len() >= 2
                            && parents@[q2]@ == spec_parent_name(sources[q2]) by {
                            if q2 < old_parents.len() {
                                assert(parents@[q2] == old_parents[q2]);
                                assert(sources[q2] == old_sources[q2]);
                            } else {
                                assert(sources[q2] == nj);
                                assert(parents@[q2]@ == spec_parent_name(nj));
                            }
                        }
                    }
                } else {
                    proof {
                        let w = choose|w: int|
                            0 <= w < parents@.len() && (#[trigger] parents@[w])@ == p@;
                        assert(names_view(parents@)[w] == spec_parent_name(nj));
                    }
                }
                proof {
                    assert forall|q2: int|
                        0 <= q2 < j + 1 && ((#[trigger] same@[q2])@).len() >= 2
                        implies contains_name(
                        names_view(parents@),
                        spec_parent_name(same@[q2]@),
                    ) by {
                        if q2 < j {
                            let w = choose|w: int|
                                0 <= w < parents_pre.len() && parents_pre[w] == spec_parent_name(
                                    same@[q2]@,
                                );
                            assert(names_view(parents@)[w] == spec_parent_name(same@[q2]@));
                        } else {
                            assert(contains_name(names_view(parents@), spec_parent_name(nj)));
                        }
                    }
                }
            }
            j = j + 1;
        }
        // The parents are both the next round and names to climb from.
        let ghost parents_v = names_view(parents@);
        let ghost rest_v = names_view(rest@);
        let ghost same_v = names_view(same@);
        proof {
            assert forall|q: int| 0 <= q < same_v.len() implies (#[trigger] same_v[q]).len()
                == ml_spec && wf_name(same_v[q]) && (contains_name(leaves0, same_v[q])
                || in_rounds(rounds0, same_v[q])) by {
                assert(same_v[q] == same@[q]@);
                let w = choose|w: int| 0 <= w < cur0.len() && cur0[w] == same_v[q];
            }
            assert forall|q: int| 0 <= q < rest_v.len() implies (#[trigger] rest_v[q]).len()
                < ml_spec && wf_name(rest_v[q]) && (contains_name(leaves0, rest_v[q])
                || in_rounds(rounds0, rest_v[q])) by {
                assert(rest_v[q] == rest@[q]@);
                let w = choose|w: int| 0 <= w < cur0.len() && cur0[w] == rest_v[q];
            }
            assert forall|k2: int| 0 <= k2 < cur0.len() implies contains_name(
                same_v,
                #[trigger] cur0[k2],
            ) || contains_name(rest_v, cur0[k2]) by {}
            assert forall|q: int| 0 <= q < same_v.len() && (#[trigger] same_v[q]).len() >= 2
                implies contains_name(parents_v, spec_parent_name(same_v[q])) by {
                assert(same_v[q] == same@[q]@);
            }
            assert forall|q: int| 0 <= q < parents_v.len() implies (#[trigger] parents_v[q]).len()
                == ml_spec - 1 && wf_name(parents_v[q]) by {
                assert(parents_v[q] == parents@[q]@);
            }
            assert forall|q1: int, q2: int|
                0 <= q1 < q2 < parents_v.len() implies parents_v[q1] != parents_v[q2] by {
                assert(parents_v[q1] == parents@[q1]@ && parents_v[q2] == parents@[q2]@);
            }
            assert forall|q: int| 0 <= q < parents_v.len() implies (contains_name(
                leaves0,
                #[trigger] sources[q],
            ) || in_rounds(rounds0, sources[q])) && sources[q].len() >= 2 && parents_v[q]
                == spec_parent_name(sources[q]) by {
                assert(parents_v[q] == parents@[q]@);
            }
        }
        current = rest;
        if parents.len() > 0 {
            let mut idx: usize = 0;
            proof {
                assert(names_view(current@) =~= rest_v + parents_v.subrange(0, 0));
            }
            while idx < parents.len()
                invariant
                    idx <= parents@.len(),
                    parents_v == names_view(parents@),
                    names_view(current@) == rest_v + parents_v.subrange(0, idx as int),
                decreases parents@.len() - idx,
            {
                let ghost cpre = names_view(current@);
                let cl = parents[idx].clone();
                proof {
                    assert(cl@ == parents_v[idx as int]);
                }
                current.push(cl);
                proof {
                    assert(names_view(current@) =~= cpre.push(parents_v[idx as int]));
                    assert(cpre.push(parents_v[idx as int]) =~= rest_v + parents_v.subrange(
                        0,
                        idx as int + 1,
                    ));
                }
                idx = idx + 1;
            }
            proof {
                assert(parents_v.subrange(0, parents_v.len() as int) =~= parents_v);
            }
            let ghost rpre = rounds_view(rounds@);
            rounds.push(parents);
            proof {
                round_sources = round_sources.push(sources);
                assert(rounds_view(rounds@) =~= rpre.push(parents_v));
            }
        }
        proof {
            lemma_plan_step(
                leaves0,
                rounds0,
                rounds_view(rounds@),
                cur0,
                same_v,
                rest_v,
                parents_v,
                sources,
                old_round_sources,
                round_sources,
                names_view(current@),
                ml_spec,
            );
            assert forall|k2: int| 0 <= k2 < current@.len() implies wf_name(
                (#[trigger] current@[k2])@,
            ) && (contains_name(leaves0, current@[k2]@) || in_rounds(
                rounds_view(rounds@),
                current@[k2]@,
            )) by {
                assert(names_view(current@)[k2] == current@[k2]@);
            }
        }
    }
    proof {
        reveal(plan_sound);
        reveal(plan_complete);
        let rv = rounds_view(rounds@);
        assert forall|r: int, j: int|
            0 <= r < rv.len() && 0 <= j < rv[r].len() implies parent_of_known(
            leaves0,
            rv,
            #[trigger] rv[r][j],
        ) by {
            let w = round_sources[r][j];
            assert((contains_name(leaves0, w) || in_rounds(rv, w)) && w.len() >= 2 && rv[r][j]
                == spec_parent_name(w));
        }
        assert(plan_sound(leaves0, rv));
        assert(plan_complete(leaves0, rv));
    }
    rounds
}

} // verus!
