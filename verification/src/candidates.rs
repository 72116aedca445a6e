//! The chunks around a focal chunk, and the order in which they are asked for.
//!
//! The streaming footprint is a square: every chunk within a Chebyshev distance
//! of the focal chunk. The chunks of the padding ring, which only lend their
//! voxels to the meshes of their neighbors, come first; the chunks within the
//! load radius follow. Within each group the nearest come first, and chunks at
//! the same distance keep the order of the square, which is scanned along z
//! within x.

use crate::chunk::ChunkCoordinate;
use vstd::prelude::*;

verus! {

/// The largest radius for which the square around any focal chunk stays within
/// the chunk grid.
pub const MAX_STREAM_RADIUS: usize = 0x7800_0000;

/// Whether the square of the given radius around `center` lies within the
/// chunk grid.
pub open spec fn in_reach(center: ChunkCoordinate, radius: int) -> bool {
    &&& 0 <= radius
    &&& i32::MIN <= center.x - radius
    &&& center.x + radius <= i32::MAX
    &&& i32::MIN <= center.z - radius
    &&& center.z + radius <= i32::MAX
}

/// The first `n` chunks of the column of the square that lies `dx` from the
/// centre along x.
pub open spec fn column(center: ChunkCoordinate, radius: int, dx: int, n: nat) -> Seq<
    ChunkCoordinate,
> {
    Seq::new(
        n,
        |j: int| ChunkCoordinate { x: (center.x + dx) as i32, z: (center.z - radius + j) as i32 },
    )
}

/// The first `n` columns of the square around `center`.
pub open spec fn columns(center: ChunkCoordinate, radius: int, n: nat) -> Seq<ChunkCoordinate>
    decreases n,
{
    if n == 0 {
        Seq::empty()
    } else {
        columns(center, radius, (n - 1) as nat) + column(
            center,
            radius,
            n - 1 - radius,
            (2 * radius + 1) as nat,
        )
    }
}

/// The chunks within the given Chebyshev distance of `center`, column by column.
pub open spec fn around(center: ChunkCoordinate, radius: nat) -> Seq<ChunkCoordinate> {
    columns(center, radius as int, (2 * radius + 1) as nat)
}

/// The test for a chunk to lie at the distance `d` from `center`.
pub open spec fn at_distance(center: ChunkCoordinate, d: int) -> spec_fn(ChunkCoordinate) -> bool {
    |c: ChunkCoordinate| c.spec_distance(center) == d
}

/// The chunks of `all` at the distances `lo`, `lo + 1`, .. up to but not
/// including `hi` from `center`: ring after ring, each in the order of `all`.
pub open spec fn rings(all: Seq<ChunkCoordinate>, center: ChunkCoordinate, lo: int, hi: int) -> Seq<
    ChunkCoordinate,
>
    decreases hi - lo,
{
    if hi <= lo {
        Seq::empty()
    } else {
        rings(all, center, lo, hi - 1) + all.filter(at_distance(center, hi - 1))
    }
}

/// The chunks around `center` in the order in which they are asked for: first
/// the padding rings beyond the load radius, then the chunks within it, each
/// group from the nearest to the farthest.
pub open spec fn prioritized(center: ChunkCoordinate, load_radius: nat, padding: nat) -> Seq<
    ChunkCoordinate,
> {
    let all = around(center, load_radius + padding);
    rings(all, center, (load_radius + 1) as int, (load_radius + padding + 1) as int) + rings(
        all,
        center,
        0,
        (load_radius + 1) as int,
    )
}

/// Gets the chunks around a chunk in the provided radius.
pub fn get_chunks_around(position: ChunkCoordinate, radius: usize) -> (list: Vec<ChunkCoordinate>)
    requires
        in_reach(position, radius as int),
    ensures
        list@ == around(position, radius as nat),
{
    let r: i64 = radius as i64;
    let side: i64 = 2 * r + 1;
    let mut list: Vec<ChunkCoordinate> = Vec::new();
    let mut i: i64 = 0;
    while i < side
        invariant
            0 <= i <= side,
            side == 2 * r + 1,
            r == radius,
            in_reach(position, r as int),
            list@ == columns(position, r as int, i as nat),
        decreases side - i,
    {
        let ghost before = list@;
        let mut j: i64 = 0;
        while j < side
            invariant
                0 <= j <= side,
                0 <= i < side,
                side == 2 * r + 1,
                in_reach(position, r as int),
                list@ == before + column(position, r as int, i - r, j as nat),
            decreases side - j,
        {
            list.push(
                ChunkCoordinate {
                    x: (position.x as i64 + (i - r)) as i32,
                    z: (position.z as i64 - r + j) as i32,
                },
            );
            assert(list@ =~= before + column(position, r as int, i - r, (j + 1) as nat));
            j = j + 1;
        }
        i = i + 1;
    }
    list
}

/// Adds to `out` the chunks of `all` that lie at the distance `d` from `center`.
fn append_ring(
    all: &Vec<ChunkCoordinate>,
    center: ChunkCoordinate,
    d: usize,
    out: &mut Vec<ChunkCoordinate>,
)
    ensures
        final(out)@ == old(out)@ + all@.filter(at_distance(center, d as int)),
{
    let pred = Ghost(at_distance(center, d as int));
    let mut i: usize = 0;
    assert(all@.take(0).filter(pred@) =~= Seq::empty()) by {
        reveal(Seq::filter);
    }
    assert(out@ =~= old(out)@ + all@.take(0).filter(pred@));
    while i < all.len()
        invariant
            0 <= i <= all.len(),
            pred@ == at_distance(center, d as int),
            out@ == old(out)@ + all@.take(i as int).filter(pred@),
        decreases all.len() - i,
    {
        let c: ChunkCoordinate = all[i];
        proof {
            assert(all@.take(i + 1) =~= all@.take(i as int).push(c));
            all@.take(i as int).lemma_filter_push(c, pred@);
        }
        if c.distance(center) == d {
            out.push(c);
            assert(out@ =~= old(out)@ + all@.take(i + 1).filter(pred@));
        }
        i = i + 1;
    }
    assert(all@.take(all.len() as int) =~= all@);
}

/// Adds to `out` the chunks of `all` at the distances from `lo` up to but not
/// including `hi`, ring after ring.
fn append_rings(
    all: &Vec<ChunkCoordinate>,
    center: ChunkCoordinate,
    lo: usize,
    hi: usize,
    out: &mut Vec<ChunkCoordinate>,
)
    requires
        lo <= hi,
    ensures
        final(out)@ == old(out)@ + rings(all@, center, lo as int, hi as int),
{
    let mut d: usize = lo;
    assert(out@ =~= old(out)@ + rings(all@, center, lo as int, lo as int));
    while d < hi
        invariant
            lo <= d <= hi,
            out@ == old(out)@ + rings(all@, center, lo as int, d as int),
        decreases hi - d,
    {
        let ghost so_far = rings(all@, center, lo as int, d as int);
        append_ring(all, center, d, out);
        assert(out@ =~= old(out)@ + rings(all@, center, lo as int, d + 1)) by {
            assert(rings(all@, center, lo as int, d + 1) == so_far + all@.filter(
                at_distance(center, d as int),
            ));
        }
        d = d + 1;
    }
}

/// The chunks around `center` in the order in which they are asked for.
pub fn prioritized_candidates(center: ChunkCoordinate, load_radius: usize, padding: usize) -> (list:
    Vec<ChunkCoordinate>)
    requires
        load_radius + padding <= MAX_STREAM_RADIUS,
        in_reach(center, (load_radius + padding) as int),
    ensures
        list@ == prioritized(center, load_radius as nat, padding as nat),
{
    let all: Vec<ChunkCoordinate> = get_chunks_around(center, load_radius + padding);
    let mut list: Vec<ChunkCoordinate> = Vec::new();
    append_rings(&all, center, load_radius + 1, load_radius + padding + 1, &mut list);
    append_rings(&all, center, 0, load_radius + 1, &mut list);
    assert(list@ =~= prioritized(center, load_radius as nat, padding as nat));
    list
}

/// What the first `n` columns of a square hold: `n` times the side of the
/// square, each chunk of those columns once and nothing else.
pub proof fn lemma_columns(center: ChunkCoordinate, radius: int, n: nat)
    requires
        in_reach(center, radius),
        n <= 2 * radius + 1,
    ensures
        columns(center, radius, n).len() == n * (2 * radius + 1),
        columns(center, radius, n).no_duplicates(),
        forall|c: ChunkCoordinate|
            #[trigger] columns(center, radius, n).contains(c) <==> {
                &&& center.x - radius <= c.x < center.x - radius + n
                &&& center.z - radius <= c.z <= center.z + radius
            },
    decreases n,
{
    let side = 2 * radius + 1;
    if n > 0 {
        let rest = columns(center, radius, (n - 1) as nat);
        let last = column(center, radius, n - 1 - radius, side as nat);
        lemma_columns(center, radius, (n - 1) as nat);
        assert((n - 1) * side + side == n * side) by (nonlinear_arith);
        assert(last.no_duplicates());
        assert forall|c: ChunkCoordinate| #[trigger] last.contains(c) <==> (c.x == center.x - radius
            + n - 1 && center.z - radius <= c.z <= center.z + radius) by {
            if c.x == center.x - radius + n - 1 && center.z - radius <= c.z <= center.z + radius {
                let j = c.z - (center.z - radius);
                assert(last[j] == c);
            }
        }
        assert forall|i: int, j: int| 0 <= i < rest.len() && 0 <= j < last.len() implies rest[i]
            != last[j] by {
            assert(rest.contains(rest[i]));
            assert(last.contains(last[j]));
        }
        vstd::seq_lib::lemma_no_dup_in_concat(rest, last);
        assert forall|c: ChunkCoordinate| #[trigger]
            columns(center, radius, n).contains(c) <==> (center.x - radius <= c.x < center.x
                - radius + n && center.z - radius <= c.z <= center.z + radius) by {
            vstd::seq_lib::lemma_seq_concat_contains_all_elements(rest, last, c);
            assert(rest.contains(c) || last.contains(c) <==> (rest + last).contains(c));
        }
    } else {
        assert(0 * side == 0) by (nonlinear_arith);
    }
}

/// The square around a chunk holds each chunk within the radius once, and no
/// other: `(2 * radius + 1)` squared in all.
pub proof fn lemma_around(center: ChunkCoordinate, radius: nat)
    requires
        in_reach(center, radius as int),
    ensures
        around(center, radius).len() == (2 * radius + 1) * (2 * radius + 1),
        around(center, radius).no_duplicates(),
        forall|c: ChunkCoordinate|
            #[trigger] around(center, radius).contains(c) <==> c.spec_distance(center) <= radius,
{
    lemma_columns(center, radius as int, (2 * radius + 1) as nat);
}

/// A filter keeps a sequence free of duplicates.
pub proof fn lemma_filter_no_duplicates<A>(s: Seq<A>, pred: spec_fn(A) -> bool)
    requires
        s.no_duplicates(),
    ensures
        s.filter(pred).no_duplicates(),
    decreases s.len(),
{
    reveal(Seq::filter);
    if s.len() > 0 {
        let rest = s.drop_last();
        lemma_filter_no_duplicates(rest, pred);
        if pred(s.last()) {
            let kept = rest.filter(pred);
            assert forall|i: int| 0 <= i < kept.len() implies kept[i] != s.last() by {
                assert(kept.contains(kept[i]));
                rest.lemma_filter_contains_rev(pred, kept[i]);
                let j = choose|j: int| 0 <= j < rest.len() && rest[j] == kept[i];
                assert(s[j] == kept[i]);
            }
        }
    }
}

/// What a filter keeps: the elements of the sequence that pass the test.
pub proof fn lemma_filter_keeps<A>(s: Seq<A>, pred: spec_fn(A) -> bool, a: A)
    ensures
        s.filter(pred).contains(a) <==> s.contains(a) && pred(a),
{
    if s.filter(pred).contains(a) {
        s.lemma_filter_contains_rev(pred, a);
        let i = choose|i: int| 0 <= i < s.filter(pred).len() && s.filter(pred)[i] == a;
        s.lemma_filter_pred(pred, i);
    }
    if s.contains(a) && pred(a) {
        let i = choose|i: int| 0 <= i < s.len() && s[i] == a;
        s.lemma_filter_contains(pred, i);
    }
}

/// What the rings from `lo` up to `hi` hold: the chunks of `all` at those
/// distances, in the order of their distance; each once, if `all` holds each
/// once.
pub proof fn lemma_rings(all: Seq<ChunkCoordinate>, center: ChunkCoordinate, lo: int, hi: int)
    ensures
        forall|c: ChunkCoordinate|
            #[trigger] rings(all, center, lo, hi).contains(c) <==> all.contains(c) && lo
                <= c.spec_distance(center) < hi,
        forall|i: int, j: int|
            0 <= i < j < rings(all, center, lo, hi).len() ==> (#[trigger] rings(
                all,
                center,
                lo,
                hi,
            )[i]).spec_distance(center) <= (#[trigger] rings(all, center, lo, hi)[j]).spec_distance(
                center,
            ),
        all.no_duplicates() ==> rings(all, center, lo, hi).no_duplicates(),
    decreases hi - lo,
{
    let result = rings(all, center, lo, hi);
    if hi > lo {
        let rest = rings(all, center, lo, hi - 1);
        let pred = at_distance(center, hi - 1);
        let last = all.filter(pred);
        lemma_rings(all, center, lo, hi - 1);
        assert forall|c: ChunkCoordinate| #[trigger] result.contains(c) <==> all.contains(c) && lo
            <= c.spec_distance(center) < hi by {
            lemma_filter_keeps(all, pred, c);
            vstd::seq_lib::lemma_seq_concat_contains_all_elements(rest, last, c);
            assert(rest.contains(c) || last.contains(c) <==> (rest + last).contains(c));
        }
        assert forall|i: int, j: int| 0 <= i < j < result.len() implies (#[trigger] result[i]).spec_distance(
            center,
        ) <= (#[trigger] result[j]).spec_distance(center) by {
            if i < rest.len() {
                assert(rest.contains(rest[i]));
            } else {
                all.lemma_filter_pred(pred, i - rest.len());
            }
            if j < rest.len() {
                assert(rest.contains(rest[j]));
            } else {
                all.lemma_filter_pred(pred, j - rest.len());
            }
        }
        if all.no_duplicates() {
            lemma_filter_no_duplicates(all, pred);
            assert forall|i: int, j: int| 0 <= i < rest.len() && 0 <= j < last.len() implies rest[i]
                != last[j] by {
                assert(rest.contains(rest[i]));
                all.lemma_filter_pred(pred, j);
            }
            vstd::seq_lib::lemma_no_dup_in_concat(rest, last);
        }
    }
}

/// The order in which the chunks around a focal chunk are asked for holds each
/// chunk within the load radius and the padding once, and no other.
pub proof fn lemma_prioritized_members(center: ChunkCoordinate, load_radius: nat, padding: nat)
    requires
        in_reach(center, (load_radius + padding) as int),
    ensures
        prioritized(center, load_radius, padding).no_duplicates(),
        forall|c: ChunkCoordinate|
            #[trigger] prioritized(center, load_radius, padding).contains(c) <==> c.spec_distance(
                center,
            ) <= load_radius + padding,
        prioritized(center, load_radius, padding).len() == (2 * (load_radius + padding) + 1) * (2
            * (load_radius + padding) + 1),
{
    let all = around(center, load_radius + padding);
    let outer = rings(all, center, (load_radius + 1) as int, (load_radius + padding + 1) as int);
    let inner = rings(all, center, 0, (load_radius + 1) as int);
    let result = prioritized(center, load_radius, padding);
    lemma_around(center, load_radius + padding);
    lemma_rings(all, center, (load_radius + 1) as int, (load_radius + padding + 1) as int);
    lemma_rings(all, center, 0, (load_radius + 1) as int);
    assert forall|i: int, j: int| 0 <= i < outer.len() && 0 <= j < inner.len() implies outer[i]
        != inner[j] by {
        assert(outer.contains(outer[i]));
        assert(inner.contains(inner[j]));
    }
    vstd::seq_lib::lemma_no_dup_in_concat(outer, inner);
    assert forall|c: ChunkCoordinate| #[trigger] result.contains(c) <==> c.spec_distance(center)
        <= load_radius + padding by {
        vstd::seq_lib::lemma_seq_concat_contains_all_elements(outer, inner, c);
        assert(outer.contains(c) || inner.contains(c) <==> (outer + inner).contains(c));
    }
    assert(result.to_set() =~= all.to_set());
    result.unique_seq_to_set();
    all.unique_seq_to_set();
}

/// In the order in which the chunks around a focal chunk are asked for, every
/// chunk of the padding ring stands before every chunk within the load radius,
/// and within each of the two groups a nearer chunk stands before a farther one.
pub proof fn lemma_prioritized_order(
    center: ChunkCoordinate,
    load_radius: nat,
    padding: nat,
    i: int,
    j: int,
)
    requires
        0 <= i < j < prioritized(center, load_radius, padding).len(),
    ensures
        ({
            let first = prioritized(center, load_radius, padding)[i].spec_distance(center);
            let second = prioritized(center, load_radius, padding)[j].spec_distance(center);
            &&& first <= load_radius ==> second <= load_radius
            &&& (first <= load_radius <==> second <= load_radius) ==> first <= second
        }),
{
    let all = around(center, load_radius + padding);
    let outer = rings(all, center, (load_radius + 1) as int, (load_radius + padding + 1) as int);
    let inner = rings(all, center, 0, (load_radius + 1) as int);
    lemma_rings(all, center, (load_radius + 1) as int, (load_radius + padding + 1) as int);
    lemma_rings(all, center, 0, (load_radius + 1) as int);
    if i < outer.len() {
        assert(outer.contains(outer[i]));
    } else {
        assert(inner.contains(inner[i - outer.len()]));
    }
    if j < outer.len() {
        assert(outer.contains(outer[j]));
    } else {
        assert(inner.contains(inner[j - outer.len()]));
    }
}

} // verus!
