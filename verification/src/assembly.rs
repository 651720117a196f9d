use crate::planner::ByteRange;
use crate::planner::plan_from;
use crate::planner::plan_spec;
use vstd::prelude::*;

verus! {

/// The body a range-respecting server returns for the range `r`: the remote
/// content from `r.start` through `r.end_inclusive`, clamped to the content's
/// actual end (the final planned range may declare an end bound one past it).
pub open spec fn fetched_bytes(content: Seq<u8>, r: ByteRange) -> Seq<u8>
    recommends
        r.start <= content.len(),
{
    content.subrange(
        r.start as int,
        if r.end_inclusive + 1 <= content.len() {
            r.end_inclusive + 1
        } else {
            content.len() as int
        },
    )
}

/// One positioned write: the file with `data` overwriting the bytes from
/// `start` on, everything else unchanged.
pub open spec fn write_at(file: Seq<u8>, start: int, data: Seq<u8>) -> Seq<u8>
    recommends
        0 <= start,
        start + data.len() <= file.len(),
{
    file.subrange(0, start) + data + file.subrange(start + data.len(), file.len() as int)
}

/// The destination file after every chunk operation has written its fetched
/// bytes at its own start offset, in plan order.
pub open spec fn apply_writes(file: Seq<u8>, ranges: Seq<ByteRange>, content: Seq<u8>) -> Seq<u8>
    decreases ranges.len(),
{
    if ranges.len() == 0 {
        file
    } else {
        apply_writes(
            write_at(file, ranges[0].start as int, fetched_bytes(content, ranges[0])),
            ranges.drop_first(),
            content,
        )
    }
}

/// Perform one chunk's positioned write into an in-memory file image: `data`
/// lands at offset `start`, all other bytes keep their value.
pub fn place_chunk(file: &mut Vec<u8>, start: usize, data: &Vec<u8>)
    requires
        start + data@.len() <= old(file)@.len(),
    ensures
        final(file)@ == write_at(old(file)@, start as int, data@),
{
    let flen = file.len();
    let mut i: usize = 0;
    while i < data.len()
        invariant
            start + data@.len() <= file@.len(),
            file@.len() == flen,
            i <= data@.len(),
            file@.len() == old(file)@.len(),
            forall|k: int| 0 <= k < start ==> file@[k] == old(file)@[k],
            forall|k: int| start <= k < start + i ==> file@[k] == data@[k - start],
            forall|k: int| start + data@.len() <= k < file@.len() ==> file@[k] == old(file)@[k],
        decreases data@.len() - i,
    {
        file[start + i] = data[i];
        i = i + 1;
    }
    proof {
        assert(file@ =~= write_at(old(file)@, start as int, data@));
    }
}

/// Pointwise effect of running `plan_from(start, ...)`'s writes over a file
/// image of the full content length: every byte from `start` on becomes the
/// remote content's byte, every byte before `start` keeps the file's.
proof fn lemma_apply_plan_from(
    file: Seq<u8>,
    start: int,
    length: int,
    chunk_size: int,
    content: Seq<u8>,
)
    requires
        0 <= start,
        1 <= chunk_size,
        length <= usize::MAX,
        content.len() == length,
        file.len() == length,
    ensures
        ({
            let out = apply_writes(file, plan_from(start, length, chunk_size), content);
            &&& out.len() == length
            &&& forall|k: int|
                0 <= k < length ==> out[k] == (if k >= start {
                    content[k]
                } else {
                    file[k]
                })
        }),
    decreases (if start < length { length - start } else { 0 }),
{
    let p = plan_from(start, length, chunk_size);
    if start >= length {
    } else {
        let r0 = p[0];
        let hi = if start + chunk_size <= length {
            start + chunk_size
        } else {
            length
        };
        assert(fetched_bytes(content, r0) =~= content.subrange(start, hi));
        let newfile = write_at(file, start, fetched_bytes(content, r0));
        assert(newfile.len() == length);
        assert(p.drop_first() =~= plan_from(start + chunk_size, length, chunk_size));
        lemma_apply_plan_from(newfile, start + chunk_size, length, chunk_size, content);
        let out = apply_writes(file, p, content);
        assert(out == apply_writes(newfile, p.drop_first(), content));
        assert forall|k: int| 0 <= k < length implies out[k] == (if k >= start {
            content[k]
        } else {
            file[k]
        }) by {
            if k < start {
                assert(newfile[k] == file[k]);
            } else if k < hi {
                assert(newfile[k] == content.subrange(start, hi)[k - start]);
            }
        }
    }
}

/// Whether position `k` lies in the span that range `r` writes when the
/// remote content has length `len`.
pub open spec fn covers(r: ByteRange, k: int, len: int) -> bool {
    r.start <= k && k < (if r.end_inclusive + 1 <= len {
        r.end_inclusive + 1
    } else {
        len
    })
}

/// Whether some range of `ranges` writes position `k`.
pub open spec fn covered_by(ranges: Seq<ByteRange>, k: int, len: int) -> bool {
    exists|i: int| 0 <= i < ranges.len() && covers(#[trigger] ranges[i], k, len)
}

/// Chunk writes of one consistent content commute: in whatever order the
/// writes land, every covered byte ends up holding the remote content's byte
/// and every uncovered byte keeps the file's.
pub proof fn lemma_apply_writes_pointwise(file: Seq<u8>, ranges: Seq<ByteRange>, content: Seq<u8>)
    requires
        file.len() == content.len(),
        forall|i: int|
            0 <= i < ranges.len() ==> (#[trigger] ranges[i]).start <= ranges[i].end_inclusive,
        forall|i: int| 0 <= i < ranges.len() ==> (#[trigger] ranges[i]).start <= content.len(),
    ensures
        apply_writes(file, ranges, content).len() == file.len(),
        forall|k: int|
            0 <= k < file.len() ==> apply_writes(file, ranges, content)[k] == (if covered_by(
                ranges,
                k,
                content.len() as int,
            ) {
                content[k]
            } else {
                file[k]
            }),
    decreases ranges.len(),
{
    if ranges.len() > 0 {
        let len = content.len() as int;
        let r0 = ranges[0];
        let hi = if r0.end_inclusive + 1 <= len {
            r0.end_inclusive + 1
        } else {
            len
        };
        let data = fetched_bytes(content, r0);
        let newfile = write_at(file, r0.start as int, data);
        assert(newfile.len() == file.len());
        let rest = ranges.drop_first();
        assert forall|i: int|
            0 <= i < rest.len() implies (#[trigger] rest[i]).start <= rest[i].end_inclusive
                && rest[i].start <= content.len() by {
            assert(rest[i] == ranges[i + 1]);
        }
        lemma_apply_writes_pointwise(newfile, rest, content);
        let out = apply_writes(file, ranges, content);
        assert(out == apply_writes(newfile, rest, content));
        assert forall|k: int| 0 <= k < file.len() implies out[k] == (if covered_by(
            ranges,
            k,
            len,
        ) {
            content[k]
        } else {
            file[k]
        }) by {
            if covered_by(rest, k, len) {
                let i = choose|i: int| 0 <= i < rest.len() && covers(rest[i], k, len);
                assert(rest[i] == ranges[i + 1]);
                assert(covers(ranges[i + 1], k, len));
            } else if covers(r0, k, len) {
                assert(newfile[k] == data[k - r0.start]);
                assert(data[k - r0.start] == content[k]);
                assert(covers(ranges[0], k, len));
            } else {
                assert(newfile[k] == file[k]);
                if covered_by(ranges, k, len) {
                    let i = choose|i: int| 0 <= i < ranges.len() && covers(ranges[i], k, len);
                    if i == 0 {
                        assert(false);
                    } else {
                        assert(rest[i - 1] == ranges[i]);
                        assert(covers(rest[i - 1], k, len));
                        assert(false);
                    }
                }
            }
        }
    }
}

/// Every position of `[start, length)` is written by some range of the plan
/// that begins at `start`.
proof fn lemma_plan_from_covers(start: int, length: int, chunk_size: int, k: int)
    requires
        0 <= start,
        1 <= chunk_size,
        length <= usize::MAX,
        start <= k < length,
    ensures
        covered_by(plan_from(start, length, chunk_size), k, length),
    decreases length - start,
{
    let p = plan_from(start, length, chunk_size);
    if k < start + chunk_size {
        assert(covers(p[0], k, length));
    } else {
        lemma_plan_from_covers(start + chunk_size, length, chunk_size, k);
        let rest = plan_from(start + chunk_size, length, chunk_size);
        assert(p.drop_first() =~= rest);
        let i = choose|i: int| 0 <= i < rest.len() && covers(rest[i], k, length);
        assert(covers(p[i + 1], k, length));
    }
}

/// Round trip in any completion order: the planned spans cover every byte of
/// `[0, length)` and each chunk writes the remote content's own bytes, so
/// applying the planned writes in whatever order they finish rebuilds exactly
/// the remote content.
pub proof fn lemma_round_trip_any_order(
    file: Seq<u8>,
    length: int,
    chunk_size: int,
    content: Seq<u8>,
    order: Seq<ByteRange>,
)
    requires
        1 <= chunk_size,
        0 <= length <= usize::MAX,
        content.len() == length,
        file.len() == length,
        order.to_multiset() == plan_spec(length, chunk_size).to_multiset(),
    ensures
        apply_writes(file, order, content) == content,
{
    broadcast use vstd::seq_lib::group_to_multiset_ensures;

    let p = plan_spec(length, chunk_size);
    crate::planner::lemma_plan_from_index(0, length, chunk_size);
    assert forall|i: int|
        0 <= i < order.len() implies (#[trigger] order[i]).start <= order[i].end_inclusive
            && order[i].start <= content.len() by {
        assert(order.contains(order[i]));
        assert(order.to_multiset().count(order[i]) > 0);
        assert(p.to_multiset().count(order[i]) > 0);
        assert(p.contains(order[i]));
        let j = choose|j: int| 0 <= j < p.len() && p[j] == order[i];
        assert(p[j] == crate::planner::range_at(0, length, chunk_size, j));
        assert(0 + j * chunk_size < length);
        assert(j * chunk_size >= 0) by (nonlinear_arith)
            requires
                j >= 0,
                chunk_size >= 1,
        ;
    }
    lemma_apply_writes_pointwise(file, order, content);
    assert forall|k: int| 0 <= k < length implies covered_by(order, k, length) by {
        lemma_plan_from_covers(0, length, chunk_size, k);
        let j = choose|j: int| 0 <= j < p.len() && covers(p[j], k, length);
        assert(p.contains(p[j]));
        assert(p.to_multiset().count(p[j]) > 0);
        assert(order.to_multiset().count(p[j]) > 0);
        assert(order.contains(p[j]));
        let i = choose|i: int| 0 <= i < order.len() && order[i] == p[j];
        assert(covers(order[i], k, length));
    }
    assert(apply_writes(file, order, content) =~= content);
}

/// Round trip: writing every planned chunk's fetched bytes at its own start
/// offset rebuilds exactly the remote content, for any initial destination
/// contents of the right length and a range-respecting server.
pub proof fn lemma_plan_round_trip(file: Seq<u8>, length: int, chunk_size: int, content: Seq<u8>)
    requires
        1 <= chunk_size,
        0 <= length <= usize::MAX,
        content.len() == length,
        file.len() == length,
    ensures
        apply_writes(file, plan_spec(length, chunk_size), content) == content,
{
    lemma_apply_plan_from(file, 0, length, chunk_size, content);
    assert(apply_writes(file, plan_spec(length, chunk_size), content) =~= content);
}

/// Downloading the same remote content twice over the same plan rebuilds the
/// same file contents, whatever each run found in the destination beforehand.
pub proof fn lemma_rebuild_deterministic(
    file1: Seq<u8>,
    file2: Seq<u8>,
    length: int,
    chunk_size: int,
    content: Seq<u8>,
)
    requires
        1 <= chunk_size,
        0 <= length <= usize::MAX,
        content.len() == length,
        file1.len() == length,
        file2.len() == length,
    ensures
        apply_writes(file1, plan_spec(length, chunk_size), content) == apply_writes(
            file2,
            plan_spec(length, chunk_size),
            content,
        ),
{
    lemma_plan_round_trip(file1, length, chunk_size, content);
    lemma_plan_round_trip(file2, length, chunk_size, content);
}

} // verus!
