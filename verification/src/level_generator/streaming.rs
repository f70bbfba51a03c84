//! The rules of streaming: which chunks a tick asks for and which it removes.
//!
//! A chunk is kept if it lies in the window of some focal point, that is, if
//! its coordinate is the focal point's chunk coordinate plus one of the
//! offsets of the neighborhood. A tick asks for every kept chunk that is not
//! resident, and removes every resident chunk that is not kept.
use crate::level_generator::chunk::{
    spec_to_chunk_space, to_chunk_space, ChunkMarker, CHUNK_HEIGHT, CHUNK_WIDTH,
};
use crate::level_generator::tile::TILE_WIDTH;
use crate::level_generator::valid_start;
use vstd::prelude::*;

verus! {

/// The farthest that an offset of a neighborhood may reach from the focal
/// point's chunk, in chunks, along either axis.
pub const MAX_NEIGHBOR_REACH: i32 = 1048576;

/// The order to generate one chunk.
#[derive(Clone, Copy, Debug, PartialEq, Eq)]
pub struct ChunkRequest {
    /// The coordinate of the chunk.
    pub ch_pos: (i32, i32),
    /// The grid cell at the chunk's left and lower corner.
    pub start: (i32, i32),
    /// The seed of the noise field to sample for the chunk.
    pub seed: u32,
}

/// A pair of machine integers as a pair of integers.
pub open spec fn coord(p: (i32, i32)) -> (int, int) {
    (p.0 as int, p.1 as int)
}

/// Every offset of the neighborhood is within reach.
pub open spec fn within_reach(neighbors: Seq<(i32, i32)>) -> bool {
    forall|k: int|
        0 <= k < neighbors.len() ==> {
            &&& -MAX_NEIGHBOR_REACH <= (#[trigger] neighbors[k]).0 <= MAX_NEIGHBOR_REACH
            &&& -MAX_NEIGHBOR_REACH <= neighbors[k].1 <= MAX_NEIGHBOR_REACH
        }
}

/// The chunk coordinates of the focal points at the world positions `focal`.
pub open spec fn spec_focal_chunks(focal: Seq<(i32, i32)>) -> Seq<(int, int)> {
    Seq::new(focal.len(), |f: int| spec_to_chunk_space(focal[f]))
}

/// The chunk at `c` lies in the window around the chunk at `center`.
pub open spec fn in_window(center: (int, int), neighbors: Seq<(i32, i32)>, c: (int, int)) -> bool {
    exists|k: int|
        0 <= k < neighbors.len() && c == (
            center.0 + (#[trigger] neighbors[k]).0,
            center.1 + neighbors[k].1,
        )
}

/// The chunk at `c` lies in the window of at least one focal point.
pub open spec fn kept(centers: Seq<(int, int)>, neighbors: Seq<(i32, i32)>, c: (int, int)) -> bool {
    exists|f: int| 0 <= f < centers.len() && in_window(#[trigger] centers[f], neighbors, c)
}

/// The chunk at `c` is resident.
pub open spec fn resident(existing: Seq<ChunkMarker>, c: (int, int)) -> bool {
    exists|i: int| 0 <= i < existing.len() && coord((#[trigger] existing[i]).ch_pos) == c
}

/// The chunk at `c` is asked for.
pub open spec fn requested(requests: Seq<ChunkRequest>, c: (int, int)) -> bool {
    exists|i: int| 0 <= i < requests.len() && coord((#[trigger] requests[i]).ch_pos) == c
}

/// The chunk in the window of focal point `f` at offset `k`.
pub open spec fn candidate(
    centers: Seq<(int, int)>,
    neighbors: Seq<(i32, i32)>,
    f: int,
    k: int,
) -> (int, int) {
    (centers[f].0 + neighbors[k].0, centers[f].1 + neighbors[k].1)
}

/// The pair `a` of focal point and offset comes before the pair `b` when the
/// windows are walked focal point by focal point, offset by offset.
pub open spec fn pair_before(a: (int, int), b: (int, int)) -> bool {
    a.0 < b.0 || (a.0 == b.0 && a.1 < b.1)
}

/// On that walk the chunk at `c` is met for the first time at offset `k` of
/// focal point `f`.
pub open spec fn first_met(
    centers: Seq<(int, int)>,
    neighbors: Seq<(i32, i32)>,
    c: (int, int),
    f: int,
    k: int,
) -> bool {
    &&& 0 <= f < centers.len()
    &&& 0 <= k < neighbors.len()
    &&& candidate(centers, neighbors, f, k) == c
    &&& forall|a: int, b: int|
        0 <= a < centers.len() && 0 <= b < neighbors.len() && pair_before((a, b), (f, k))
            ==> #[trigger] candidate(centers, neighbors, a, b) != c
}

/// The requests stand in the order in which the walk first meets their chunks.
pub open spec fn in_walk_order(
    requests: Seq<ChunkRequest>,
    centers: Seq<(int, int)>,
    neighbors: Seq<(i32, i32)>,
) -> bool {
    forall|i: int, j: int, f1: int, k1: int, f2: int, k2: int|
        0 <= i < j < requests.len() && #[trigger] first_met(
            centers,
            neighbors,
            coord(requests[i].ch_pos),
            f1,
            k1,
        ) && #[trigger] first_met(centers, neighbors, coord(requests[j].ch_pos), f2, k2)
            ==> pair_before((f1, k1), (f2, k2))
}

/// `requests` is what a generate pass asks for: one request, with the seed and
/// the chunk's corner, for every chunk that is kept and not resident, and no
/// other request; in the order in which the windows hold those chunks, focal
/// point by focal point and offset by offset.
pub open spec fn is_generation_plan(
    requests: Seq<ChunkRequest>,
    seed: u32,
    centers: Seq<(int, int)>,
    neighbors: Seq<(i32, i32)>,
    existing: Seq<ChunkMarker>,
) -> bool {
    &&& forall|c: (int, int)| #[trigger]
        requested(requests, c) <==> kept(centers, neighbors, c) && !resident(existing, c)
    &&& forall|i: int, j: int|
        0 <= i < j < requests.len() ==> (#[trigger] requests[i]).ch_pos != (#[trigger] requests[j]).ch_pos
    &&& forall|i: int|
        0 <= i < requests.len() ==> {
            &&& (#[trigger] requests[i]).seed == seed
            &&& requests[i].start.0 == requests[i].ch_pos.0 * CHUNK_WIDTH
            &&& requests[i].start.1 == requests[i].ch_pos.1 * CHUNK_HEIGHT
            &&& valid_start(requests[i].start)
        }
    &&& in_walk_order(requests, centers, neighbors)
}

/// The index `i` is listed in `evicted`.
pub open spec fn listed(evicted: Seq<usize>, i: int) -> bool {
    exists|k: int| 0 <= k < evicted.len() && #[trigger] evicted[k] == i
}

/// `evicted` is what an evict pass removes: the indices, in ascending order,
/// of the resident chunks that no focal point keeps. Without a focal point
/// nothing is removed.
pub open spec fn is_eviction_plan(
    evicted: Seq<usize>,
    centers: Seq<(int, int)>,
    neighbors: Seq<(i32, i32)>,
    existing: Seq<ChunkMarker>,
) -> bool {
    &&& forall|i: int|
        0 <= i < existing.len() ==> (#[trigger] listed(evicted, i) <==> centers.len() > 0 && !kept(
            centers,
            neighbors,
            coord(existing[i].ch_pos),
        ))
    &&& forall|k: int| 0 <= k < evicted.len() ==> (#[trigger] evicted[k]) < existing.len()
    &&& forall|a: int, b: int|
        0 <= a < b < evicted.len() ==> (#[trigger] evicted[a]) < (#[trigger] evicted[b])
}

/// The pairs of `s` as pairs of integers.
pub open spec fn coords(s: Seq<(i32, i32)>) -> Seq<(int, int)> {
    Seq::new(s.len(), |i: int| coord(s[i]))
}

/// Every coordinate of `centers` is that of a chunk which holds a world
/// position.
pub open spec fn in_world(centers: Seq<(i32, i32)>) -> bool {
    forall|f: int|
        0 <= f < centers.len() ==> {
            &&& -4194304 <= (#[trigger] centers[f]).0 < 4194304
            &&& -4194304 <= centers[f].1 < 4194304
        }
}

/// The chunk coordinates of the focal points at the world positions `focal`,
/// in the same order.
pub fn focal_chunks(focal: &Vec<(i32, i32)>) -> (centers: Vec<(i32, i32)>)
    ensures
        coords(centers@) == spec_focal_chunks(focal@),
        in_world(centers@),
{
    let mut centers: Vec<(i32, i32)> = Vec::new();
    let mut f: usize = 0;
    while f < focal.len()
        invariant
            f <= focal@.len(),
            centers@.len() == f,
            forall|a: int| 0 <= a < f ==> coord(#[trigger] centers@[a]) == spec_to_chunk_space(focal@[a]),
        decreases focal@.len() - f,
    {
        centers.push(to_chunk_space(focal[f]));
        f = f + 1;
    }
    centers
}

/// Whether the chunk at `c` is resident.
pub fn is_resident(existing: &Vec<ChunkMarker>, c: (i32, i32)) -> (found: bool)
    ensures
        found == resident(existing@, coord(c)),
{
    let mut i: usize = 0;
    while i < existing.len()
        invariant
            i <= existing@.len(),
            forall|a: int| 0 <= a < i ==> coord((#[trigger] existing@[a]).ch_pos) != coord(c),
        decreases existing@.len() - i,
    {
        if existing[i].ch_pos.0 == c.0 && existing[i].ch_pos.1 == c.1 {
            return true;
        }
        i = i + 1;
    }
    false
}

/// Whether the chunk at `c` is asked for.
fn is_requested(requests: &Vec<ChunkRequest>, c: (i32, i32)) -> (found: bool)
    ensures
        found == requested(requests@, coord(c)),
{
    let mut i: usize = 0;
    while i < requests.len()
        invariant
            i <= requests@.len(),
            forall|a: int| 0 <= a < i ==> coord((#[trigger] requests@[a]).ch_pos) != coord(c),
        decreases requests@.len() - i,
    {
        if requests[i].ch_pos.0 == c.0 && requests[i].ch_pos.1 == c.1 {
            return true;
        }
        i = i + 1;
    }
    false
}

/// Whether the chunk at `c` lies in the window around the chunk at `center`.
pub fn is_in_window(center: (i32, i32), neighbors: &Vec<(i32, i32)>, c: (i32, i32)) -> (inside: bool)
    ensures
        inside == in_window(coord(center), neighbors@, coord(c)),
{
    let mut k: usize = 0;
    while k < neighbors.len()
        invariant
            k <= neighbors@.len(),
            forall|a: int|
                0 <= a < k ==> coord(c) != (
                    center.0 + (#[trigger] neighbors@[a]).0,
                    center.1 + neighbors@[a].1,
                ),
        decreases neighbors@.len() - k,
    {
        let x: i64 = center.0 as i64 + neighbors[k].0 as i64;
        let y: i64 = center.1 as i64 + neighbors[k].1 as i64;
        if x == c.0 as i64 && y == c.1 as i64 {
            return true;
        }
        k = k + 1;
    }
    false
}

/// Whether the chunk at `c` lies in the window of at least one of the focal
/// points, given by their chunk coordinates.
pub fn is_kept(centers: &Vec<(i32, i32)>, neighbors: &Vec<(i32, i32)>, c: (i32, i32)) -> (keep: bool)
    ensures
        keep == kept(coords(centers@), neighbors@, coord(c)),
{
    let mut f: usize = 0;
    while f < centers.len()
        invariant
            f <= centers@.len(),
            forall|a: int|
                0 <= a < f ==> !in_window(#[trigger] coords(centers@)[a], neighbors@, coord(c)),
        decreases centers@.len() - f,
    {
        if is_in_window(centers[f], neighbors, c) {
            assert(in_window(coords(centers@)[f as int], neighbors@, coord(c)));
            return true;
        }
        f = f + 1;
    }
    false
}

/// Every candidate before offset `k` of focal point `f` is resident or asked
/// for.
spec fn covered_before(
    requests: Seq<ChunkRequest>,
    centers: Seq<(int, int)>,
    neighbors: Seq<(i32, i32)>,
    existing: Seq<ChunkMarker>,
    f: int,
    k: int,
) -> bool {
    forall|a: int, b: int|
        0 <= a < centers.len() && 0 <= b < neighbors.len() && (a < f || (a == f && b < k)) ==> {
            let c = #[trigger] candidate(centers, neighbors, a, b);
            resident(existing, c) || requested(requests, c)
        }
}

/// Every request is for a kept chunk that is not resident, carries the seed
/// and the chunk's corner, and no chunk is asked for twice.
spec fn sound_requests(
    requests: Seq<ChunkRequest>,
    seed: u32,
    centers: Seq<(int, int)>,
    neighbors: Seq<(i32, i32)>,
    existing: Seq<ChunkMarker>,
) -> bool {
    &&& forall|i: int|
        0 <= i < requests.len() ==> {
            &&& kept(centers, neighbors, coord((#[trigger] requests[i]).ch_pos))
            &&& !resident(existing, coord(requests[i].ch_pos))
            &&& requests[i].seed == seed
            &&& requests[i].start.0 == requests[i].ch_pos.0 * CHUNK_WIDTH
            &&& requests[i].start.1 == requests[i].ch_pos.1 * CHUNK_HEIGHT
            &&& valid_start(requests[i].start)
        }
    &&& forall|i: int, j: int|
        0 <= i < j < requests.len() ==> (#[trigger] requests[i]).ch_pos != (#[trigger] requests[j]).ch_pos
}

/// The requests stand in walk order, and the walk has met each of their chunks
/// before offset `k` of focal point `f`.
spec fn ordered_before(
    requests: Seq<ChunkRequest>,
    centers: Seq<(int, int)>,
    neighbors: Seq<(i32, i32)>,
    f: int,
    k: int,
) -> bool {
    &&& in_walk_order(requests, centers, neighbors)
    &&& forall|i: int, f1: int, k1: int|
        0 <= i < requests.len() && #[trigger] first_met(
            centers,
            neighbors,
            coord(requests[i].ch_pos),
            f1,
            k1,
        ) ==> pair_before((f1, k1), (f, k))
}

/// The generate pass: the requests for the chunks that lie in the window of a
/// focal point and are not resident, each chunk once, with `seed` as the seed
/// to generate it from.
pub fn plan_generation(
    seed: u32,
    centers: &Vec<(i32, i32)>,
    neighbors: &Vec<(i32, i32)>,
    existing: &Vec<ChunkMarker>,
) -> (requests: Vec<ChunkRequest>)
    requires
        in_world(centers@),
        within_reach(neighbors@),
    ensures
        is_generation_plan(requests@, seed, coords(centers@), neighbors@, existing@),
{
    let ghost cs = coords(centers@);
    let mut requests: Vec<ChunkRequest> = Vec::new();
    let mut f: usize = 0;
    while f < centers.len()
        invariant
            in_world(centers@),
            within_reach(neighbors@),
            cs == coords(centers@),
            f <= centers@.len(),
            sound_requests(requests@, seed, cs, neighbors@, existing@),
            covered_before(requests@, cs, neighbors@, existing@, f as int, 0),
            ordered_before(requests@, cs, neighbors@, f as int, 0),
        decreases centers@.len() - f,
    {
        let center: (i32, i32) = centers[f];
        let mut k: usize = 0;
        while k < neighbors.len()
            invariant
                in_world(centers@),
                within_reach(neighbors@),
                cs == coords(centers@),
                f < centers@.len(),
                center == centers@[f as int],
                k <= neighbors@.len(),
                sound_requests(requests@, seed, cs, neighbors@, existing@),
                covered_before(requests@, cs, neighbors@, existing@, f as int, k as int),
                ordered_before(requests@, cs, neighbors@, f as int, k as int),
            decreases neighbors@.len() - k,
        {
            let offset: (i32, i32) = neighbors[k];
            let c: (i32, i32) = (center.0 + offset.0, center.1 + offset.1);
            let ghost before = requests@;
            if !is_resident(existing, c) && !is_requested(&requests, c) {
                let start: (i32, i32) = (c.0 * CHUNK_WIDTH, c.1 * CHUNK_HEIGHT);
                requests.push(ChunkRequest { ch_pos: c, start, seed });
                proof {
                    let last = before.len() as int;
                    // The new request is for a kept chunk.
                    assert(in_window(cs[f as int], neighbors@, coord(c)));
                    // What was covered stays covered, and this offset is now.
                    assert forall|a: int, b: int|
                        0 <= a < cs.len() && 0 <= b < neighbors@.len() && (a < f || (a == f && b < k + 1)) implies {
                        let w = #[trigger] candidate(cs, neighbors@, a, b);
                        resident(existing@, w) || requested(requests@, w)
                    } by {
                        let w = candidate(cs, neighbors@, a, b);
                        if a == f && b == k {
                            assert(coord(requests@[last].ch_pos) == w);
                        } else if !resident(existing@, w) {
                            let i = choose|i: int|
                                0 <= i < before.len() && coord((#[trigger] before[i]).ch_pos) == w;
                            assert(requests@[i] == before[i]);
                        }
                    }
                    // The new chunk is met for the first time here: wherever
                    // the walk met it before, it would be resident or asked for.
                    assert forall|f1: int, k1: int| #[trigger]
                        first_met(cs, neighbors@, coord(c), f1, k1) implies f1 == f && k1 == k by {
                        if pair_before((f as int, k as int), (f1, k1)) {
                            assert(candidate(cs, neighbors@, f as int, k as int) != coord(c));
                        }
                    }
                    assert(ordered_before(requests@, cs, neighbors@, f as int, k + 1)) by {
                        assert forall|i: int| 0 <= i < last implies requests@[i] == before[i] by {}
                    }
                }
            }
            k = k + 1;
        }
        f = f + 1;
    }
    proof {
        assert forall|c: (int, int)| #[trigger]
            requested(requests@, c) <==> kept(cs, neighbors@, c) && !resident(existing@, c) by {
            if kept(cs, neighbors@, c) && !resident(existing@, c) {
                let a = choose|a: int| 0 <= a < cs.len() && in_window(#[trigger] cs[a], neighbors@, c);
                let b = choose|b: int|
                    0 <= b < neighbors@.len() && c == (
                        cs[a].0 + (#[trigger] neighbors@[b]).0,
                        cs[a].1 + neighbors@[b].1,
                    );
                assert(candidate(cs, neighbors@, a, b) == c);
            }
        }
    }
    requests
}

/// The evict pass: the indices, in ascending order, of the resident chunks
/// that lie in no focal point's window. Without a focal point the pass removes
/// nothing.
pub fn plan_eviction(
    centers: &Vec<(i32, i32)>,
    neighbors: &Vec<(i32, i32)>,
    existing: &Vec<ChunkMarker>,
) -> (evicted: Vec<usize>)
    ensures
        is_eviction_plan(evicted@, coords(centers@), neighbors@, existing@),
{
    let mut evicted: Vec<usize> = Vec::new();
    if centers.len() == 0 {
        return evicted;
    }
    let ghost cs = coords(centers@);
    let mut i: usize = 0;
    while i < existing.len()
        invariant
            cs == coords(centers@),
            cs.len() > 0,
            i <= existing@.len(),
            forall|a: int|
                0 <= a < i ==> (#[trigger] listed(evicted@, a) <==> !kept(
                    cs,
                    neighbors@,
                    coord(existing@[a].ch_pos),
                )),
            forall|k: int| 0 <= k < evicted@.len() ==> (#[trigger] evicted@[k]) < i,
            forall|a: int, b: int|
                0 <= a < b < evicted@.len() ==> (#[trigger] evicted@[a]) < (#[trigger] evicted@[b]),
        decreases existing@.len() - i,
    {
        let ghost before = evicted@;
        if !is_kept(centers, neighbors, existing[i].ch_pos) {
            evicted.push(i);
            proof {
                let last = before.len() as int;
                assert(evicted@[last] == i);
                assert forall|a: int| 0 <= a < i + 1 implies (#[trigger] listed(evicted@, a) <==> !kept(
                    cs,
                    neighbors@,
                    coord(existing@[a].ch_pos),
                )) by {
                    if a < i && listed(before, a) {
                        let k = choose|k: int| 0 <= k < before.len() && #[trigger] before[k] == a;
                        assert(evicted@[k] == a);
                    }
                }
            }
        }
        i = i + 1;
    }
    evicted
}

/// One generate pass fills every window, and a second pass on what is then
/// resident asks for nothing. `after` is the resident set once the requests of
/// the first pass are fulfilled: what was resident before, and what was asked
/// for.
pub proof fn lemma_generation_is_idempotent(
    first: Seq<ChunkRequest>,
    second: Seq<ChunkRequest>,
    seed: u32,
    later_seed: u32,
    centers: Seq<(int, int)>,
    neighbors: Seq<(i32, i32)>,
    existing: Seq<ChunkMarker>,
    after: Seq<ChunkMarker>,
)
    requires
        is_generation_plan(first, seed, centers, neighbors, existing),
        forall|c: (int, int)| #[trigger]
            resident(after, c) <==> resident(existing, c) || requested(first, c),
        is_generation_plan(second, later_seed, centers, neighbors, after),
    ensures
        forall|f: int, k: int|
            0 <= f < centers.len() && 0 <= k < neighbors.len() ==> resident(
                after,
                #[trigger] candidate(centers, neighbors, f, k),
            ),
        second.len() == 0,
{
    assert forall|f: int, k: int| 0 <= f < centers.len() && 0 <= k < neighbors.len() implies resident(
        after,
        #[trigger] candidate(centers, neighbors, f, k),
    ) by {
        // The chunk is kept, so the first pass found it resident or asked for
        // it; either way it is resident afterwards.
        let c = candidate(centers, neighbors, f, k);
        assert(in_window(centers[f], neighbors, c));
        assert(requested(first, c) <==> kept(centers, neighbors, c) && !resident(existing, c));
    }
    if second.len() > 0 {
        // A request of the second pass would be for a kept chunk that is not
        // resident afterwards, and there is none.
        let c = coord(second[0].ch_pos);
        assert(requested(second, c) <==> kept(centers, neighbors, c) && !resident(after, c));
        assert(requested(first, c) <==> kept(centers, neighbors, c) && !resident(existing, c));
    }
}

/// Within one tick no chunk is both asked for and removed: a generate pass and
/// an evict pass on the same focal points and the same resident set never name
/// the same coordinate.
pub proof fn lemma_no_flapping(
    requests: Seq<ChunkRequest>,
    evicted: Seq<usize>,
    seed: u32,
    centers: Seq<(int, int)>,
    neighbors: Seq<(i32, i32)>,
    existing: Seq<ChunkMarker>,
    i: int,
    k: int,
)
    requires
        is_generation_plan(requests, seed, centers, neighbors, existing),
        is_eviction_plan(evicted, centers, neighbors, existing),
        0 <= i < requests.len(),
        0 <= k < evicted.len(),
    ensures
        requests[i].ch_pos != existing[evicted[k] as int].ch_pos,
{
    // What is asked for is kept, what is removed is not.
    let c = coord(requests[i].ch_pos);
    assert(requested(requests, c) <==> kept(centers, neighbors, c) && !resident(existing, c));
    assert(listed(evicted, evicted[k] as int));
}

/// A step of one chunk's width along x takes a world position into the next
/// chunk along x.
pub proof fn lemma_step_along_x(pos: (i32, i32), next: (i32, i32))
    requires
        next.0 == pos.0 + CHUNK_WIDTH * TILE_WIDTH,
        next.1 == pos.1,
    ensures
        spec_to_chunk_space(next) == (spec_to_chunk_space(pos).0 + 1, spec_to_chunk_space(pos).1),
{
    assert(CHUNK_WIDTH * TILE_WIDTH == 512);
}

/// After the one focal point has moved by one chunk's width along x, the evict
/// pass removes exactly the resident chunks that lie outside the window around
/// the next chunk along x, and no others.
pub proof fn lemma_eviction_after_step(
    evicted: Seq<usize>,
    pos: (i32, i32),
    next: (i32, i32),
    neighbors: Seq<(i32, i32)>,
    existing: Seq<ChunkMarker>,
    i: int,
)
    requires
        next.0 == pos.0 + CHUNK_WIDTH * TILE_WIDTH,
        next.1 == pos.1,
        is_eviction_plan(evicted, spec_focal_chunks(seq![next]), neighbors, existing),
        0 <= i < existing.len(),
    ensures
        listed(evicted, i) <==> !in_window(
            (spec_to_chunk_space(pos).0 + 1, spec_to_chunk_space(pos).1),
            neighbors,
            coord(existing[i].ch_pos),
        ),
{
    lemma_step_along_x(pos, next);
    let centers = spec_focal_chunks(seq![next]);
    let c = coord(existing[i].ch_pos);
    assert(centers[0] == spec_to_chunk_space(next));
    if in_window(centers[0], neighbors, c) {
        assert(kept(centers, neighbors, c));
    }
}

} // verus!
