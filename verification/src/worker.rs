use crate::color::{lab_distance, spec_lab_distance, Color};
use vstd::prelude::*;

verus! {

/// How many pixels of the downsampled image fell into cluster `v`.
pub open spec fn cluster_count(s: Seq<u8>, v: u8) -> int
    decreases s.len(),
{
    if s.len() == 0 {
        0
    } else {
        cluster_count(s.drop_last(), v) + if s.last() == v {
            1int
        } else {
            0int
        }
    }
}

/// `j` names the dominant cluster: no cluster covers more pixels, and no
/// earlier cluster covers as many.
pub open spec fn is_dominant_index(k: int, s: Seq<u8>, j: int) -> bool {
    &&& 0 <= j < k
    &&& forall|i: int|
        0 <= i < k ==> #[trigger] cluster_count(s, i as u8) <= cluster_count(s, j as u8)
    &&& forall|i: int|
        0 <= i < j ==> #[trigger] cluster_count(s, i as u8) < cluster_count(s, j as u8)
}

fn count_assignments(assignments: &Vec<u8>, v: u8) -> (r: usize)
    ensures
        r == cluster_count(assignments@, v),
{
    let mut i: usize = 0;
    let mut acc: usize = 0;
    while i < assignments.len()
        invariant
            0 <= i <= assignments@.len(),
            acc == cluster_count(assignments@.take(i as int), v),
            acc <= i,
        decreases assignments@.len() - i,
    {
        let hit = assignments[i] == v;
        proof {
            let t = assignments@.take((i + 1) as int);
            assert(t.drop_last() =~= assignments@.take(i as int));
            assert(t.last() == assignments@[i as int]);
        }
        if hit {
            acc += 1;
        }
        i += 1;
    }
    proof {
        assert(assignments@.take(assignments@.len() as int) =~= assignments@);
    }
    acc
}

/// The dominant color of a quantized image: the centroid whose cluster
/// covers the most sampled pixels, the earliest on a tie; nothing when no
/// centroid or no pixel exists.
pub fn dominant_cluster(centroids: &Vec<Color>, assignments: &Vec<u8>) -> (r: Option<Color>)
    requires
        centroids@.len() <= 256,
        forall|i: int| 0 <= i < centroids@.len() ==> (#[trigger] centroids@[i]).valid(),
    ensures
        r is Some <==> centroids@.len() > 0 && assignments@.len() > 0,
        r is Some ==> exists|j: int|
            is_dominant_index(centroids@.len() as int, assignments@, j) && r->Some_0
                == centroids@[j],
        r is Some ==> r->Some_0.valid(),
{
    if centroids.len() == 0 || assignments.len() == 0 {
        return None;
    }
    let mut best: usize = 0;
    let mut best_count: usize = count_assignments(assignments, 0);
    let mut j: usize = 1;
    while j < centroids.len()
        invariant
            1 <= j <= centroids@.len() <= 256,
            0 <= best < j,
            best_count == cluster_count(assignments@, best as u8),
            forall|i: int|
                0 <= i < j ==> #[trigger] cluster_count(assignments@, i as u8)
                    <= cluster_count(assignments@, best as u8),
            forall|i: int|
                0 <= i < best ==> #[trigger] cluster_count(assignments@, i as u8)
                    < cluster_count(assignments@, best as u8),
        decreases centroids@.len() - j,
    {
        let c = count_assignments(assignments, j as u8);
        if c > best_count {
            best = j;
            best_count = c;
        }
        j += 1;
    }
    assert(is_dominant_index(centroids@.len() as int, assignments@, best as int));
    Some(centroids[best])
}

/// What the worker replies once the fetch and decode phases are done.
/// `clusters` carries the quantizer's centroids and per-pixel assignments,
/// or nothing when the image could not be fetched or decoded. A reply
/// carries the dominant color and its distance to the target; no
/// clusterable pixels, like every other per-candidate failure, replies
/// nothing rather than erring.
pub fn evaluate_candidate(target: &Color, clusters: Option<(Vec<Color>, Vec<u8>)>) -> (r:
    Option<(Color, u32)>)
    requires
        target.valid(),
        clusters matches Some(cl) ==> cl.0@.len() <= 256 && forall|i: int|
            0 <= i < cl.0@.len() ==> (#[trigger] cl.0@[i]).valid(),
    ensures
        r is Some <==> (clusters matches Some(cl) && cl.0@.len() > 0 && cl.1@.len() > 0),
        r matches Some(p) ==> clusters matches Some(cl) && exists|j: int|
            is_dominant_index(cl.0@.len() as int, cl.1@, j) && p.0 == cl.0@[j] && p.1 as int
                == spec_lab_distance(*target, cl.0@[j]),
{
    match clusters {
        None => None,
        Some((centroids, assignments)) => {
            match dominant_cluster(&centroids, &assignments) {
                None => None,
                Some(dominant) => {
                    let d = lab_distance(target, &dominant);
                    Some((dominant, d))
                },
            }
        },
    }
}

/// The distance a search takes from a worker reply: an absent reply — an
/// unreachable image, a redirect loop, an undecodable body, no clusterable
/// pixels, or a dead mailbox — counts as the maximal distance sentinel and
/// leaves nothing to write back; a real reply is the computed distance,
/// with its dominant color to be written back to the cache.
pub fn distance_from_reply(reply: Option<(Color, u32)>) -> (r: (u32, Option<Color>))
    ensures
        reply is None ==> r.0 == u32::MAX && r.1 is None,
        reply matches Some(p) ==> r.0 == p.1 && r.1 == Some(p.0),
{
    match reply {
        None => (u32::MAX, None),
        Some((color, distance)) => (distance, Some(color)),
    }
}

} // verus!
