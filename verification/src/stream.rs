//! The streaming policy: which chunks to ask the server for, nearest first,
//! which chunks to take back from the mesher's hands, and which to hand to
//! it.

use crate::chunk::{ChunkData, ChunkState, ALL_NEIGHBORS};
use crate::pos::ChunkPos;
use crate::registry::{ChunkMap, Invalidated};
use vstd::prelude::*;

verus! {

/// A chunk the client should ask for: within `radius` of `center` and not
/// held.
spec fn wanted(chunks: &ChunkMap, center: ChunkPos, radius: int, c: ChunkPos) -> bool {
    c.spec_dist(center) <= radius && !chunks.spec_contains(c)
}

/// Whether `c` comes before the place `(dx, dy, dz)` of ring `d` in the
/// order of requests: by distance to `center` first, then by the x, y and z
/// offsets from it.
pub open spec fn before(c: ChunkPos, center: ChunkPos, d: int, dx: int, dy: int, dz: int) -> bool {
    let r = c.spec_dist(center);
    let ox = c.x - center.x;
    let oy = c.y - center.y;
    let oz = c.z - center.z;
    r < d || (r == d && (ox < dx || (ox == dx && (oy < dy || (oy == dy && oz < dz)))))
}

/// Whether `a` is requested before `b`.
pub open spec fn ranked_before(a: ChunkPos, b: ChunkPos, center: ChunkPos) -> bool {
    before(a, center, b.spec_dist(center), b.x - center.x, b.y - center.y, b.z - center.z)
}

/// `out` lists, in the order of requests, exactly the wanted chunks that
/// come before the place `(dx, dy, dz)` of ring `d`.
spec fn scanned(
    chunks: &ChunkMap,
    center: ChunkPos,
    radius: int,
    out: Seq<ChunkPos>,
    d: int,
    dx: int,
    dy: int,
    dz: int,
) -> bool {
    &&& forall|k: int|
        0 <= k < out.len() ==> wanted(chunks, center, radius, #[trigger] out[k]) && before(
            out[k],
            center,
            d,
            dx,
            dy,
            dz,
        )
    &&& forall|c: ChunkPos|
        wanted(chunks, center, radius, c) && #[trigger] before(c, center, d, dx, dy, dz)
            ==> out.contains(c)
    &&& forall|k: int, l: int|
        0 <= k < l < out.len() ==> ranked_before(#[trigger] out[k], #[trigger] out[l], center)
}

/// Every chunk within `radius` of `center` has coordinates that fit the
/// machine's integers.
pub open spec fn fits(center: ChunkPos, radius: int) -> bool {
    &&& i64::MIN <= center.x - radius && center.x + radius <= i64::MAX
    &&& i64::MIN <= center.y - radius && center.y + radius <= i64::MAX
    &&& i64::MIN <= center.z - radius && center.z + radius <= i64::MAX
}

/// Two places that have the same chunks before them have the same list.
proof fn lemma_shift(
    chunks: &ChunkMap,
    center: ChunkPos,
    radius: int,
    out: Seq<ChunkPos>,
    d1: int,
    dx1: int,
    dy1: int,
    dz1: int,
    d2: int,
    dx2: int,
    dy2: int,
    dz2: int,
)
    requires
        scanned(chunks, center, radius, out, d1, dx1, dy1, dz1),
        forall|c: ChunkPos| #[trigger]
            before(c, center, d2, dx2, dy2, dz2) <==> before(c, center, d1, dx1, dy1, dz1),
    ensures
        scanned(chunks, center, radius, out, d2, dx2, dy2, dz2),
{
    assert forall|k: int| 0 <= k < out.len() implies wanted(chunks, center, radius, #[trigger] out[k])
        && before(out[k], center, d2, dx2, dy2, dz2) by {
        assert(before(out[k], center, d1, dx1, dy1, dz1));
    }
}

/// Visits the place `(dx, dy, dz)` of ring `d`: lists the chunk there if it
/// is wanted.
fn visit(
    chunks: &ChunkMap,
    center: ChunkPos,
    radius: u32,
    d: i64,
    dx: i64,
    dy: i64,
    dz: i64,
    out: &mut Vec<ChunkPos>,
)
    requires
        0 <= d <= radius,
        -d <= dx <= d,
        -d <= dy <= d,
        -d <= dz <= d,
        fits(center, radius as int),
        scanned(chunks, center, radius as int, old(out)@, d as int, dx as int, dy as int, dz as int),
    ensures
        scanned(
            chunks,
            center,
            radius as int,
            final(out)@,
            d as int,
            dx as int,
            dy as int,
            dz + 1,
        ),
{
    let c: ChunkPos = ChunkPos { x: center.x + dx, y: center.y + dy, z: center.z + dz };
    let ghost prev = out@;
    let listed: bool = c.orthogonal_dist(center) == d as u64 && !chunks.contains_key(c);
    if listed {
        out.push(c);
    }
    proof {
        let cur = out@;
        assert forall|k: int| 0 <= k < prev.len() implies cur[k] == prev[k] by {}
        assert forall|k: int| 0 <= k < cur.len() implies wanted(
            chunks,
            center,
            radius as int,
            #[trigger] cur[k],
        ) && before(cur[k], center, d as int, dx as int, dy as int, dz + 1) by {
            if k < prev.len() {
                assert(cur[k] == prev[k]);
                assert(before(prev[k], center, d as int, dx as int, dy as int, dz as int));
            }
        }
        assert forall|q: ChunkPos|
            wanted(chunks, center, radius as int, q) && #[trigger] before(
                q,
                center,
                d as int,
                dx as int,
                dy as int,
                dz + 1,
            ) implies cur.contains(q) by {
            if before(q, center, d as int, dx as int, dy as int, dz as int) {
                assert(prev.contains(q));
                let k = choose|k: int| 0 <= k < prev.len() && prev[k] == q;
                assert(cur[k] == q);
            } else {
                assert(q == c);
                assert(listed);
                assert(cur[prev.len() as int] == q);
            }
        }
        assert forall|k: int, l: int| 0 <= k < l < cur.len() implies ranked_before(
            #[trigger] cur[k],
            #[trigger] cur[l],
            center,
        ) by {
            if l < prev.len() {
                assert(ranked_before(prev[k], prev[l], center));
            } else {
                assert(before(prev[k], center, d as int, dx as int, dy as int, dz as int));
            }
        }
    }
}

/// The chunks to ask the server for: every chunk within `radius` of
/// `center` that the registry does not hold, each once, nearest first (and,
/// at equal distance, by their x, y and z offsets).
pub fn missing_within(chunks: &ChunkMap, center: ChunkPos, radius: u32) -> (out: Vec<ChunkPos>)
    requires
        fits(center, radius as int),
    ensures
        forall|c: ChunkPos| #[trigger]
            out@.contains(c) <==> (c.spec_dist(center) <= radius && !chunks.spec_contains(c)),
        forall|k: int, l: int|
            0 <= k < l < out@.len() ==> ranked_before(#[trigger] out@[k], #[trigger] out@[l], center),
        forall|k: int, l: int|
            0 <= k < l < out@.len() ==> (#[trigger] out@[k]).spec_dist(center) <= (
            #[trigger] out@[l]).spec_dist(center),
        forall|k: int, l: int| 0 <= k < l < out@.len() ==> #[trigger] out@[k] != #[trigger] out@[l],
{
    let r: i64 = radius as i64;
    let mut out: Vec<ChunkPos> = Vec::new();
    let mut d: i64 = 0;
    while d <= r
        invariant
            0 <= d <= r + 1,
            r == radius,
            fits(center, radius as int),
            scanned(chunks, center, radius as int, out@, d as int, -d, -d, -d),
        decreases r + 1 - d,
    {
        let mut dx: i64 = -d;
        while dx <= d
            invariant
                0 <= d <= r,
                r == radius,
                -d <= dx <= d + 1,
                fits(center, radius as int),
                scanned(chunks, center, radius as int, out@, d as int, dx as int, -d, -d),
            decreases d + 1 - dx,
        {
            let mut dy: i64 = -d;
            while dy <= d
                invariant
                    0 <= d <= r,
                    r == radius,
                    -d <= dx <= d,
                    -d <= dy <= d + 1,
                    fits(center, radius as int),
                    scanned(chunks, center, radius as int, out@, d as int, dx as int, dy as int, -d),
                decreases d + 1 - dy,
            {
                let inside: bool = -d < dx && dx < d && -d < dy && dy < d;
                let mut dz: i64 = -d;
                while dz <= d
                    invariant
                        0 <= d <= r,
                        r == radius,
                        -d <= dx <= d,
                        -d <= dy <= d,
                        -d <= dz <= d + 1,
                        inside == (-d < dx && dx < d && -d < dy && dy < d),
                        inside ==> dz == -d || dz >= d,
                        fits(center, radius as int),
                        scanned(
                            chunks,
                            center,
                            radius as int,
                            out@,
                            d as int,
                            dx as int,
                            dy as int,
                            dz as int,
                        ),
                    decreases d + 1 - dz,
                {
                    visit(chunks, center, radius, d, dx, dy, dz, &mut out);
                    if inside && dz < d {
                        proof {
                            lemma_shift(
                                chunks,
                                center,
                                radius as int,
                                out@,
                                d as int,
                                dx as int,
                                dy as int,
                                dz + 1,
                                d as int,
                                dx as int,
                                dy as int,
                                d as int,
                            );
                        }
                        dz = d;
                    } else {
                        dz = dz + 1;
                    }
                }
                proof {
                    lemma_shift(
                        chunks,
                        center,
                        radius as int,
                        out@,
                        d as int,
                        dx as int,
                        dy as int,
                        d + 1,
                        d as int,
                        dx as int,
                        dy + 1,
                        -d,
                    );
                }
                dy = dy + 1;
            }
            proof {
                lemma_shift(
                    chunks,
                    center,
                    radius as int,
                    out@,
                    d as int,
                    dx as int,
                    d + 1,
                    -d,
                    d as int,
                    dx + 1,
                    -d,
                    -d,
                );
            }
            dx = dx + 1;
        }
        proof {
            lemma_shift(
                chunks,
                center,
                radius as int,
                out@,
                d as int,
                d + 1,
                -d,
                -d,
                d + 1,
                -(d + 1),
                -(d + 1),
                -(d + 1),
            );
        }
        d = d + 1;
    }
    proof {
        assert forall|c: ChunkPos| #[trigger]
            out@.contains(c) <==> (c.spec_dist(center) <= radius && !chunks.spec_contains(c)) by {
            if c.spec_dist(center) <= radius && !chunks.spec_contains(c) {
                assert(before(c, center, d as int, -d, -d, -d));
            }
            if out@.contains(c) {
                let k = choose|k: int| 0 <= k < out@.len() && out@[k] == c;
                assert(wanted(chunks, center, radius as int, out@[k]));
            }
        }
        assert forall|k: int, l: int| 0 <= k < l < out@.len() implies (#[trigger] out@[k]).spec_dist(
            center,
        ) <= (#[trigger] out@[l]).spec_dist(center) && out@[k] != out@[l] by {
            assert(ranked_before(out@[k], out@[l], center));
        }
    }
    out
}

/// Whether one of the first `i` entries of `init` is a meshable chunk at
/// `p`.
spec fn meshable_among(init: &ChunkMap, p: ChunkPos, i: int) -> bool {
    exists|j: int|
        0 <= j < i && (#[trigger] init.entries@[j]).pos == p
            && init.entries@[j].data.spec_meshable()
}

/// What `dispatch_meshing` does: `post` is `pre` with every meshable chunk
/// set to `Meshing`, and `jobs` lists exactly those chunks, each once.
pub open spec fn dispatched(pre: &ChunkMap, post: &ChunkMap, jobs: Seq<ChunkPos>) -> bool {
    &&& post@.dom() == pre@.dom()
    &&& forall|q: ChunkPos|
        #[trigger] pre@.dom().contains(q) ==> post@[q] == (if pre@[q].spec_meshable() {
            ChunkData { state: ChunkState::Meshing, ..pre@[q] }
        } else {
            pre@[q]
        })
    &&& forall|q: ChunkPos| #[trigger]
        jobs.contains(q) <==> (pre@.dom().contains(q) && pre@[q].spec_meshable())
    &&& forall|k: int, l: int| 0 <= k < l < jobs.len() ==> #[trigger] jobs[k] != #[trigger] jobs[l]
}

/// A chunk is handed to the mesher exactly when it goes from `Unmeshed` to
/// `Meshing`, and then once: a chunk that is being meshed stays so and is
/// not listed, and no position is listed twice.
pub proof fn lemma_one_job_per_meshing(pre: &ChunkMap, post: &ChunkMap, jobs: Seq<ChunkPos>, q: ChunkPos)
    requires
        dispatched(pre, post, jobs),
        pre@.dom().contains(q),
    ensures
        jobs.contains(q) <==> (pre@[q].state == ChunkState::Unmeshed && post@[q].state
            == ChunkState::Meshing),
        pre@[q].state == ChunkState::Meshing ==> post@[q].state == ChunkState::Meshing
            && !jobs.contains(q),
        forall|k: int, l: int| 0 <= k < jobs.len() && 0 <= l < jobs.len() && jobs[k] == q && jobs[l] == q ==> k == l,
{
    assert forall|k: int, l: int|
        0 <= k < jobs.len() && 0 <= l < jobs.len() && jobs[k] == q && jobs[l] == q implies k == l by {
        if k < l {
            assert(jobs[k] != jobs[l]);
        } else if l < k {
            assert(jobs[l] != jobs[k]);
        }
    }
}

/// Right after a dispatch nothing is left to dispatch: a second run lists
/// no chunk and changes none.
pub proof fn lemma_dispatch_settles(
    pre: &ChunkMap,
    mid: &ChunkMap,
    jobs: Seq<ChunkPos>,
    post: &ChunkMap,
    again: Seq<ChunkPos>,
)
    requires
        dispatched(pre, mid, jobs),
        dispatched(mid, post, again),
    ensures
        again.len() == 0,
        post@ == mid@,
{
    if again.len() > 0 {
        let q = again[0];
        assert(again.contains(q));
        assert(mid@.dom().contains(q));
        assert(pre@.dom().contains(q));
    }
    assert forall|q: ChunkPos| mid@.dom().contains(q) implies #[trigger] post@[q] == mid@[q] by {
        assert(pre@.dom().contains(q));
    }
    assert(post@ =~= mid@);
}

/// Hands every meshable chunk to the mesher: each complete, unmeshed chunk
/// with all six neighbours loaded becomes `Meshing` and is listed once. No
/// other chunk changes, so a chunk that is being meshed is never listed
/// again, and no chunk is meshable afterwards.
pub fn dispatch_meshing(chunks: &mut ChunkMap) -> (jobs: Vec<ChunkPos>)
    requires
        old(chunks).wf(),
    ensures
        final(chunks).wf(),
        dispatched(old(chunks), final(chunks), jobs@),
        forall|q: ChunkPos|
            #[trigger] final(chunks)@.dom().contains(q) ==> !final(chunks)@[q].spec_meshable(),
{
    let ghost init = *chunks;
    let mut jobs: Vec<ChunkPos> = Vec::new();
    let n: usize = chunks.entries.len();
    let mut i: usize = 0;
    while i < n
        invariant
            i <= n,
            n == init.entries@.len(),
            n == chunks.entries@.len(),
            init.wf(),
            forall|j: int|
                0 <= j < n ==> (#[trigger] chunks.entries@[j]).pos == init.entries@[j].pos,
            forall|j: int| i <= j < n ==> (#[trigger] chunks.entries@[j]) == init.entries@[j],
            forall|j: int|
                0 <= j < i ==> (#[trigger] chunks.entries@[j]).data == (if init.entries@[j].data.spec_meshable() {
                    ChunkData { state: ChunkState::Meshing, ..init.entries@[j].data }
                } else {
                    init.entries@[j].data
                }),
            forall|k: int| 0 <= k < jobs@.len() ==> meshable_among(&init, #[trigger] jobs@[k], i as int),
            forall|j: int|
                0 <= j < i && (#[trigger] init.entries@[j]).data.spec_meshable() ==> jobs@.contains(
                    init.entries@[j].pos,
                ),
            forall|k: int, l: int|
                0 <= k < l < jobs@.len() ==> #[trigger] jobs@[k] != #[trigger] jobs@[l],
        decreases n - i,
    {
        let ghost prev_jobs = jobs@;
        assert(init.entries@[i as int].data.wf());
        let started: bool = chunks.entries[i].data.begin_meshing();
        if started {
            let p: ChunkPos = chunks.entries[i].pos;
            jobs.push(p);
        }
        proof {
            assert forall|k: int| 0 <= k < prev_jobs.len() implies jobs@[k] == prev_jobs[k] by {}
            assert forall|k: int| 0 <= k < jobs@.len() implies meshable_among(
                &init,
                #[trigger] jobs@[k],
                i + 1,
            ) by {
                if k < prev_jobs.len() {
                    assert(meshable_among(&init, prev_jobs[k], i as int));
                    let j = choose|j: int|
                        0 <= j < i && (#[trigger] init.entries@[j]).pos == prev_jobs[k]
                            && init.entries@[j].data.spec_meshable();
                    assert(init.entries@[j].pos == jobs@[k]);
                } else {
                    assert(init.entries@[i as int].pos == jobs@[k]);
                }
            }
            assert forall|j: int|
                0 <= j < i + 1 && (#[trigger] init.entries@[j]).data.spec_meshable() implies jobs@.contains(
                init.entries@[j].pos,
            ) by {
                if j < i {
                    assert(prev_jobs.contains(init.entries@[j].pos));
                    let k = choose|k: int|
                        0 <= k < prev_jobs.len() && prev_jobs[k] == init.entries@[j].pos;
                    assert(jobs@[k] == init.entries@[j].pos);
                } else {
                    assert(jobs@[prev_jobs.len() as int] == init.entries@[j].pos);
                }
            }
            assert forall|k: int, l: int| 0 <= k < l < jobs@.len() implies #[trigger] jobs@[k]
                != #[trigger] jobs@[l] by {
                if l < prev_jobs.len() {
                    assert(prev_jobs[k] != prev_jobs[l]);
                } else {
                    assert(meshable_among(&init, prev_jobs[k], i as int));
                    let j = choose|j: int|
                        0 <= j < i && (#[trigger] init.entries@[j]).pos == prev_jobs[k]
                            && init.entries@[j].data.spec_meshable();
                    assert(init.entries@[j].pos != init.entries@[i as int].pos);
                }
            }
        }
        i = i + 1;
    }
    proof {
        let fin = *chunks;
        assert forall|j: int| 0 <= j < n implies (#[trigger] fin.entries@[j]).pos == init.entries@[j].pos
            && fin.entries@[j].data.adj_chunks == init.entries@[j].data.adj_chunks
            && fin.entries@[j].data.wf() by {
            assert(init.entries@[j].data.wf());
        }
        init.lemma_same_keys(&fin);
        assert forall|q: ChunkPos| #[trigger] init@.dom().contains(q) implies fin@[q] == (if init@[q].spec_meshable() {
            ChunkData { state: ChunkState::Meshing, ..init@[q] }
        } else {
            init@[q]
        }) by {
            let j = init.spec_index_of(q);
            init.lemma_entry(j);
            fin.lemma_entry(j);
        }
        assert forall|q: ChunkPos| #[trigger]
            jobs@.contains(q) <==> (init@.dom().contains(q) && init@[q].spec_meshable()) by {
            if jobs@.contains(q) {
                let k = choose|k: int| 0 <= k < jobs@.len() && jobs@[k] == q;
                assert(meshable_among(&init, jobs@[k], n as int));
                let j = choose|j: int|
                    0 <= j < n && (#[trigger] init.entries@[j]).pos == jobs@[k]
                        && init.entries@[j].data.spec_meshable();
                init.lemma_entry(j);
            }
            if init@.dom().contains(q) && init@[q].spec_meshable() {
                let j = init.spec_index_of(q);
                init.lemma_entry(j);
                assert(jobs@.contains(init.entries@[j].pos));
            }
        }
    }
    jobs
}

/// Whether a record has lost its footing: it is being meshed or is meshed,
/// but not all six neighbours are held.
pub open spec fn unsupported(data: ChunkData) -> bool {
    data.state != ChunkState::Unmeshed && data.adj_chunks != ALL_NEIGHBORS
}

/// What `unmesh_unsupported` does: `post` is `pre` with every unsupported
/// chunk back at `Unmeshed`, and `list` names exactly those chunks, each
/// once, with the buffer it held.
pub open spec fn unmeshed(pre: &ChunkMap, post: &ChunkMap, list: Seq<Invalidated>) -> bool {
    &&& post@.dom() == pre@.dom()
    &&& forall|q: ChunkPos|
        #[trigger] pre@.dom().contains(q) ==> post@[q] == (if unsupported(pre@[q]) {
            ChunkData { state: ChunkState::Unmeshed, ..pre@[q] }
        } else {
            pre@[q]
        })
    &&& forall|k: int|
        0 <= k < list.len() ==> pre@.dom().contains((#[trigger] list[k]).pos) && unsupported(
            pre@[list[k].pos],
        ) && list[k].buffer == pre@[list[k].pos].spec_buffer()
    &&& forall|q: ChunkPos|
        #[trigger] pre@.dom().contains(q) && unsupported(pre@[q]) ==> exists|k: int|
            0 <= k < list.len() && (#[trigger] list[k]).pos == q
    &&& forall|k: int, l: int|
        0 <= k < l < list.len() ==> (#[trigger] list[k]).pos != (#[trigger] list[l]).pos
}

/// Whether `item` names one of the first `i` entries of `init`, which is
/// unsupported, with its buffer.
spec fn unsupported_among(init: &ChunkMap, item: Invalidated, i: int) -> bool {
    exists|j: int|
        0 <= j < i && (#[trigger] init.entries@[j]).pos == item.pos && unsupported(
            init.entries@[j].data,
        ) && item.buffer == init.entries@[j].data.spec_buffer()
}

/// Sends every chunk that has lost a neighbour while it was being meshed
/// or was meshed back to `Unmeshed`, and lists each once with the buffer it
/// held. No other chunk changes. Afterwards every chunk that is being
/// meshed or is meshed has all six neighbours.
pub fn unmesh_unsupported(chunks: &mut ChunkMap) -> (list: Vec<Invalidated>)
    requires
        old(chunks).wf(),
    ensures
        final(chunks).wf(),
        unmeshed(old(chunks), final(chunks), list@),
        forall|q: ChunkPos|
            #[trigger] final(chunks)@.dom().contains(q) ==> !unsupported(final(chunks)@[q]),
{
    let ghost init = *chunks;
    let mut list: Vec<Invalidated> = Vec::new();
    let n: usize = chunks.entries.len();
    let mut i: usize = 0;
    while i < n
        invariant
            i <= n,
            n == init.entries@.len(),
            n == chunks.entries@.len(),
            init.wf(),
            forall|j: int|
                0 <= j < n ==> (#[trigger] chunks.entries@[j]).pos == init.entries@[j].pos,
            forall|j: int| i <= j < n ==> (#[trigger] chunks.entries@[j]) == init.entries@[j],
            forall|j: int|
                0 <= j < i ==> (#[trigger] chunks.entries@[j]).data == (if unsupported(
                    init.entries@[j].data,
                ) {
                    ChunkData { state: ChunkState::Unmeshed, ..init.entries@[j].data }
                } else {
                    init.entries@[j].data
                }),
            forall|k: int| 0 <= k < list@.len() ==> unsupported_among(&init, #[trigger] list@[k], i as int),
            forall|j: int|
                0 <= j < i && unsupported((#[trigger] init.entries@[j]).data) ==> exists|k: int|
                    0 <= k < list@.len() && (#[trigger] list@[k]).pos == init.entries@[j].pos,
            forall|k: int, l: int|
                0 <= k < l < list@.len() ==> (#[trigger] list@[k]).pos != (#[trigger] list@[l]).pos,
        decreases n - i,
    {
        let ghost prev = list@;
        assert(init.entries@[i as int].data.wf());
        let settled: bool = match chunks.entries[i].data.state {
            ChunkState::Unmeshed => true,
            _ => chunks.entries[i].data.adj_chunks == ALL_NEIGHBORS,
        };
        if !settled {
            let pos: ChunkPos = chunks.entries[i].pos;
            let buffer: Option<u64> = chunks.entries[i].data.invalidate();
            list.push(Invalidated { pos, buffer });
        }
        proof {
            assert(settled == !unsupported(init.entries@[i as int].data));
            assert forall|k: int| 0 <= k < prev.len() implies list@[k] == prev[k] by {}
            assert forall|k: int| 0 <= k < list@.len() implies unsupported_among(
                &init,
                #[trigger] list@[k],
                i + 1,
            ) by {
                if k < prev.len() {
                    assert(unsupported_among(&init, prev[k], i as int));
                    let j = choose|j: int|
                        0 <= j < i && (#[trigger] init.entries@[j]).pos == prev[k].pos && unsupported(
                            init.entries@[j].data,
                        ) && prev[k].buffer == init.entries@[j].data.spec_buffer();
                    assert(init.entries@[j].pos == list@[k].pos);
                } else {
                    assert(init.entries@[i as int].pos == list@[k].pos);
                }
            }
            assert forall|j: int|
                0 <= j < i + 1 && unsupported((#[trigger] init.entries@[j]).data) implies exists|k: int|
                0 <= k < list@.len() && (#[trigger] list@[k]).pos == init.entries@[j].pos by {
                if j < i {
                    let k = choose|k: int|
                        0 <= k < prev.len() && (#[trigger] prev[k]).pos == init.entries@[j].pos;
                    assert(list@[k].pos == init.entries@[j].pos);
                } else {
                    assert(list@[prev.len() as int].pos == init.entries@[j].pos);
                }
            }
            assert forall|k: int, l: int| 0 <= k < l < list@.len() implies (#[trigger] list@[k]).pos != (
            #[trigger] list@[l]).pos by {
                if l < prev.len() {
                    assert(prev[k].pos != prev[l].pos);
                } else {
                    assert(unsupported_among(&init, prev[k], i as int));
                    let j = choose|j: int|
                        0 <= j < i && (#[trigger] init.entries@[j]).pos == prev[k].pos && unsupported(
                            init.entries@[j].data,
                        ) && prev[k].buffer == init.entries@[j].data.spec_buffer();
                    assert(init.entries@[j].pos != init.entries@[i as int].pos);
                }
            }
        }
        i = i + 1;
    }
    proof {
        let fin = *chunks;
        assert forall|j: int| 0 <= j < n implies (#[trigger] fin.entries@[j]).pos == init.entries@[j].pos
            && fin.entries@[j].data.adj_chunks == init.entries@[j].data.adj_chunks
            && fin.entries@[j].data.wf() by {
            assert(init.entries@[j].data.wf());
        }
        init.lemma_same_keys(&fin);
        assert forall|q: ChunkPos| #[trigger] init@.dom().contains(q) implies fin@[q] == (if unsupported(
            init@[q],
        ) {
            ChunkData { state: ChunkState::Unmeshed, ..init@[q] }
        } else {
            init@[q]
        }) by {
            let j = init.spec_index_of(q);
            init.lemma_entry(j);
            fin.lemma_entry(j);
        }
        assert forall|k: int| 0 <= k < list@.len() implies init@.dom().contains(
            (#[trigger] list@[k]).pos,
        ) && unsupported(init@[list@[k].pos]) && list@[k].buffer == init@[list@[k].pos].spec_buffer() by {
            assert(unsupported_among(&init, list@[k], n as int));
            let j = choose|j: int|
                0 <= j < n && (#[trigger] init.entries@[j]).pos == list@[k].pos && unsupported(
                    init.entries@[j].data,
                ) && list@[k].buffer == init.entries@[j].data.spec_buffer();
            init.lemma_entry(j);
        }
        assert forall|q: ChunkPos| #[trigger]
            init@.dom().contains(q) && unsupported(init@[q]) implies exists|k: int|
            0 <= k < list@.len() && (#[trigger] list@[k]).pos == q by {
            let j = init.spec_index_of(q);
            init.lemma_entry(j);
            assert(init.entries@[j].pos == q);
        }
    }
    list
}

} // verus!
